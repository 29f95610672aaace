//! A lexer for a small C-like language: it turns source text into a
//! flat sequence of classified tokens ending in a single end-of-input
//! marker, and proves that the sequence matches a mathematical model
//! of the token grammar.
use vstd::prelude::*;

pub mod character_stream;
pub mod laws;
pub mod lexers;
pub mod model;
pub mod token;

pub use character_stream::CharacterStream;
pub use token::KeywordType;
pub use token::OperatorType;
pub use token::Token;

use crate::lexers::is_digit;
use crate::lexers::is_ident_start;
use crate::lexers::lex_char;
use crate::lexers::lex_identifier_or_keyword;
use crate::lexers::lex_number;
use crate::lexers::lex_operator;
use crate::lexers::lex_string;
use crate::lexers::skip_comments;
use crate::model::spec_tokens;
use crate::model::spec_tokens_from;
use crate::model::ws_end;
use crate::token::TokenModel;
use crate::token::lemma_token_models_push;
use crate::token::token_models;

verus! {

/// Tokenizes the whole input eagerly: the result is exactly the token
/// sequence of the model, which always ends in one end-of-input marker.
pub fn tokenize_str(text: &str) -> (tokens: Vec<Token>)
    ensures
        token_models(tokens@) == spec_tokens(text@),
{
    let ghost s = text@;
    let mut tokens: Vec<Token> = Vec::new();
    let mut cs = CharacterStream::new(text);
    loop
        invariant_except_break
            cs.wf(),
            cs.text() == s,
            0 <= cs.position() <= s.len(),
            spec_tokens(s) == token_models(tokens@) + spec_tokens_from(s, cs.position()),
        ensures
            token_models(tokens@) == spec_tokens(s),
        decreases s.len() - cs.position(),
    {
        let ghost p = cs.position();
        cs.skip_whitespace();
        proof {
            crate::model::lemma_ws_end(s, p);
        }
        if cs.is_eof() {
            proof {
                lemma_token_models_push(tokens@, Token::Eof);
                assert(token_models(tokens@) + spec_tokens_from(s, p) =~= token_models(
                    tokens@.push(Token::Eof),
                ));
            }
            tokens.push(Token::Eof);
            break;
        }
        skip_comments(&mut cs);
        proof {
            crate::model::lemma_comments_end(s, ws_end(s, p));
        }
        if cs.is_eof() {
            proof {
                lemma_token_models_push(tokens@, Token::Eof);
                assert(token_models(tokens@) + spec_tokens_from(s, p) =~= token_models(
                    tokens@.push(Token::Eof),
                ));
            }
            tokens.push(Token::Eof);
            break;
        }
        let ghost cs_dispatch_pos = cs.position();
        let c = cs.current_char();
        let token = if is_ident_start(c) {
            lex_identifier_or_keyword(&mut cs)
        } else if is_digit(c) || c == '.' {
            lex_number(&mut cs)
        } else if c == '"' {
            lex_string(&mut cs)
        } else if c == '\'' {
            lex_char(&mut cs)
        } else if c == '(' {
            cs.advance_by(1);
            Token::OpenParen
        } else if c == ')' {
            cs.advance_by(1);
            Token::CloseParen
        } else if c == '{' {
            cs.advance_by(1);
            Token::OpenBrace
        } else if c == '}' {
            cs.advance_by(1);
            Token::CloseBrace
        } else if c == '[' {
            cs.advance_by(1);
            Token::OpenBracket
        } else if c == ']' {
            cs.advance_by(1);
            Token::CloseBracket
        } else if c == ';' {
            cs.advance_by(1);
            Token::SemiColon
        } else {
            lex_operator(&mut cs)
        };
        let reached_end = match &token {
            Token::Eof => true,
            _ => false,
        };
        proof {
            crate::model::lemma_dispatch_bounds(s, cs_dispatch_pos);
            lemma_token_models_push(tokens@, token);
            if reached_end {
                assert(token_models(tokens@) + spec_tokens_from(s, p) =~= token_models(
                    tokens@.push(token),
                ));
            } else {
                assert(token_models(tokens@) + spec_tokens_from(s, p) =~= token_models(
                    tokens@.push(token),
                ) + spec_tokens_from(s, cs.position()));
            }
        }
        tokens.push(token);
        if reached_end {
            break;
        }
    }
    tokens
}

/// Wraps the eagerly produced token sequence and hands the tokens out
/// one by one, in source order.
pub struct Scanner {
    index: usize,
    tokens: Vec<Token>,
}

impl Scanner {
    /// The complete token sequence.
    pub closed spec fn token_list(&self) -> Seq<Token> {
        self.tokens@
    }

    /// The models of the complete token sequence.
    pub open spec fn models(&self) -> Seq<TokenModel> {
        token_models(self.token_list())
    }

    /// The read position: how many tokens have been handed out.
    pub closed spec fn cursor(&self) -> int {
        self.index as int
    }

    /// Tokenizes the whole text up front.
    pub fn new(text: &str) -> (scanner: Self)
        ensures
            scanner.models() == spec_tokens(text@),
            scanner.cursor() == 0,
    {
        Self { index: 0, tokens: tokenize_str(text) }
    }

    /// Hands out the token at the read position and moves the position
    /// forward; past the end it yields nothing.
    pub fn next_token(&mut self) -> (token: Option<&Token>)
        ensures
            final(self).token_list() == old(self).token_list(),
            old(self).cursor() < old(self).token_list().len() ==> {
                &&& token matches Some(t) && *t == old(self).token_list()[old(self).cursor()]
                &&& final(self).cursor() == old(self).cursor() + 1
            },
            old(self).cursor() >= old(self).token_list().len() ==> token is None
                && final(self).cursor() == old(self).cursor(),
    {
        if self.index < self.tokens.len() {
            let token = &self.tokens[self.index];
            self.index = self.index + 1;
            Some(token)
        } else {
            None
        }
    }

    /// The complete token sequence, for positional iteration.
    pub fn tokens(&self) -> (all: &[Token])
        ensures
            all@ == self.token_list(),
    {
        self.tokens.as_slice()
    }
}

} // verus!
