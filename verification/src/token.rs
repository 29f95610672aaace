//! Tokens and their mathematical model.
use vstd::prelude::*;

verus! {

/// The keywords of the language.
#[derive(Debug, PartialEq, Eq, Structural, Clone, Copy)]
pub enum KeywordType {
    Char,
    Double,
    Else,
    Float,
    For,
    If,
    Int,
    Long,
    Return,
    While,
}

/// The operators of the language, compound forms included.
#[derive(Debug, PartialEq, Eq, Structural, Clone, Copy)]
pub enum OperatorType {
    Plus,
    PlusEqual,
    And,
    Assign,
    BitwiseAnd,
    BitwiseOr,
    Decrement,
    NotEqual,
    Divide,
    DivideEqual,
    Equals,
    GreaterThan,
    GreaterThanOrEqual,
    Increment,
    LessThan,
    LessThanOrEqual,
    Asterisk,
    AsteriskEqual,
    ExclamationPoint,
    Or,
    Minus,
    MinusEqual,
}

/// One classified unit of source text. Literal-carrying variants own
/// their text; tokens are immutable once produced.
#[derive(Debug, Clone, PartialEq, Eq)]
pub enum Token {
    CloseBrace,
    CloseBracket,
    CloseParen,
    Char(char),
    Eof,
    Id(String),
    Keyword(KeywordType),
    Number(String),
    OpenBrace,
    OpenBracket,
    OpenParen,
    Operator(OperatorType),
    SemiColon,
    String(String),
    Invalid(String),
}

/// The model of a token: the same variants with owned strings
/// abstracted to character sequences.
pub enum TokenModel {
    CloseBrace,
    CloseBracket,
    CloseParen,
    Char(char),
    Eof,
    Id(Seq<char>),
    Keyword(KeywordType),
    Number(Seq<char>),
    OpenBrace,
    OpenBracket,
    OpenParen,
    Operator(OperatorType),
    SemiColon,
    String(Seq<char>),
    Invalid(Seq<char>),
}

impl View for Token {
    type V = TokenModel;

    open spec fn view(&self) -> TokenModel {
        match self {
            Token::CloseBrace => TokenModel::CloseBrace,
            Token::CloseBracket => TokenModel::CloseBracket,
            Token::CloseParen => TokenModel::CloseParen,
            Token::Char(c) => TokenModel::Char(*c),
            Token::Eof => TokenModel::Eof,
            Token::Id(s) => TokenModel::Id(s@),
            Token::Keyword(k) => TokenModel::Keyword(*k),
            Token::Number(s) => TokenModel::Number(s@),
            Token::OpenBrace => TokenModel::OpenBrace,
            Token::OpenBracket => TokenModel::OpenBracket,
            Token::OpenParen => TokenModel::OpenParen,
            Token::Operator(o) => TokenModel::Operator(*o),
            Token::SemiColon => TokenModel::SemiColon,
            Token::String(s) => TokenModel::String(s@),
            Token::Invalid(s) => TokenModel::Invalid(s@),
        }
    }
}

/// The models of a sequence of tokens.
pub open spec fn token_models(ts: Seq<Token>) -> Seq<TokenModel> {
    ts.map_values(|t: Token| t@)
}

/// Taking models commutes with appending one token.
pub proof fn lemma_token_models_push(ts: Seq<Token>, t: Token)
    ensures
        token_models(ts.push(t)) == token_models(ts).push(t@),
{
    assert(token_models(ts.push(t)) =~= token_models(ts).push(t@));
}

/// The keyword a piece of text names, if any; matching is exact and
/// case-sensitive.
pub open spec fn spec_keyword(text: Seq<char>) -> Option<KeywordType> {
    if text == "for"@ {
        Some(KeywordType::For)
    } else if text == "while"@ {
        Some(KeywordType::While)
    } else if text == "if"@ {
        Some(KeywordType::If)
    } else if text == "else"@ {
        Some(KeywordType::Else)
    } else if text == "int"@ {
        Some(KeywordType::Int)
    } else if text == "float"@ {
        Some(KeywordType::Float)
    } else if text == "double"@ {
        Some(KeywordType::Double)
    } else if text == "long"@ {
        Some(KeywordType::Long)
    } else if text == "return"@ {
        Some(KeywordType::Return)
    } else if text == "char"@ {
        Some(KeywordType::Char)
    } else {
        None
    }
}

} // verus!
