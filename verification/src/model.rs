//! The mathematical model of the lexer: character classes, the
//! positions at which maximal character runs end, and the token each
//! sub-lexer produces at a given position.
use vstd::prelude::*;

use crate::token::KeywordType;
use crate::token::OperatorType;
use crate::token::TokenModel;
use crate::token::spec_keyword;

verus! {

/// ASCII whitespace: space, tab, line feed, form feed, carriage return.
pub open spec fn is_ws_char(c: char) -> bool {
    c == ' ' || c == '\t' || c == '\n' || c == '\u{c}' || c == '\r'
}

/// ASCII decimal digit.
pub open spec fn is_digit_char(c: char) -> bool {
    '0' <= c && c <= '9'
}

/// ASCII letter.
pub open spec fn is_letter_char(c: char) -> bool {
    ('a' <= c && c <= 'z') || ('A' <= c && c <= 'Z')
}

/// ASCII letter or digit.
pub open spec fn is_alnum_char(c: char) -> bool {
    is_letter_char(c) || is_digit_char(c)
}

/// A character that may continue an identifier.
pub open spec fn is_ident_char(c: char) -> bool {
    is_alnum_char(c) || c == '_'
}

/// A character that may begin an identifier.
pub open spec fn is_ident_start_char(c: char) -> bool {
    is_letter_char(c) || c == '_'
}

/// Where the whitespace run starting at `i` ends: the position of the
/// first non-whitespace character at or after `i`, or `i` itself when
/// `i` is out of range.
pub open spec fn ws_end(s: Seq<char>, i: int) -> int
    decreases s.len() - i,
{
    if 0 <= i < s.len() && is_ws_char(s[i]) {
        ws_end(s, i + 1)
    } else {
        i
    }
}

/// Where the digit run starting at `i` ends.
pub open spec fn digits_end(s: Seq<char>, i: int) -> int
    decreases s.len() - i,
{
    if 0 <= i < s.len() && is_digit_char(s[i]) {
        digits_end(s, i + 1)
    } else {
        i
    }
}

/// Where the identifier-character run starting at `i` ends.
pub open spec fn ident_end(s: Seq<char>, i: int) -> int
    decreases s.len() - i,
{
    if 0 <= i < s.len() && is_ident_char(s[i]) {
        ident_end(s, i + 1)
    } else {
        i
    }
}

/// Where the alphanumeric run starting at `i` ends.
pub open spec fn alnum_end(s: Seq<char>, i: int) -> int
    decreases s.len() - i,
{
    if 0 <= i < s.len() && is_alnum_char(s[i]) {
        alnum_end(s, i + 1)
    } else {
        i
    }
}

/// Position of the first line feed at or after `i`, or the length of
/// `s` when the rest of the input holds none.
pub open spec fn line_end(s: Seq<char>, i: int) -> int
    decreases s.len() - i,
{
    if 0 <= i < s.len() && s[i] != '\n' {
        line_end(s, i + 1)
    } else {
        i
    }
}

/// Position of the first double quote at or after `i`, or the length
/// of `s` when the rest of the input holds none.
pub open spec fn quote_end(s: Seq<char>, i: int) -> int
    decreases s.len() - i,
{
    if 0 <= i < s.len() && s[i] != '"' {
        quote_end(s, i + 1)
    } else {
        i
    }
}

/// Position of the first block-comment closer at or after `i`: the
/// first `k` with `*` at `k` and `/` right after it, or the length of
/// `s` when the rest of the input holds none.
pub open spec fn block_close(s: Seq<char>, i: int) -> int
    decreases s.len() - i,
{
    if 0 <= i < s.len() {
        if s[i] == '*' && i + 1 < s.len() && s[i + 1] == '/' {
            i
        } else {
            block_close(s, i + 1)
        }
    } else {
        if i < 0 {
            i
        } else {
            s.len() as int
        }
    }
}

pub proof fn lemma_ws_end(s: Seq<char>, i: int)
    requires
        0 <= i <= s.len(),
    ensures
        i <= ws_end(s, i) <= s.len(),
        ws_end(s, i) < s.len() ==> !is_ws_char(s[ws_end(s, i)]),
        forall|j: int| i <= j < ws_end(s, i) ==> is_ws_char(#[trigger] s[j]),
    decreases s.len() - i,
{
    if i < s.len() && is_ws_char(s[i]) {
        lemma_ws_end(s, i + 1);
    }
}

pub proof fn lemma_digits_end(s: Seq<char>, i: int)
    requires
        0 <= i <= s.len(),
    ensures
        i <= digits_end(s, i) <= s.len(),
        digits_end(s, i) < s.len() ==> !is_digit_char(s[digits_end(s, i)]),
        forall|j: int| i <= j < digits_end(s, i) ==> is_digit_char(#[trigger] s[j]),
    decreases s.len() - i,
{
    if i < s.len() && is_digit_char(s[i]) {
        lemma_digits_end(s, i + 1);
    }
}

pub proof fn lemma_ident_end(s: Seq<char>, i: int)
    requires
        0 <= i <= s.len(),
    ensures
        i <= ident_end(s, i) <= s.len(),
        ident_end(s, i) < s.len() ==> !is_ident_char(s[ident_end(s, i)]),
        forall|j: int| i <= j < ident_end(s, i) ==> is_ident_char(#[trigger] s[j]),
    decreases s.len() - i,
{
    if i < s.len() && is_ident_char(s[i]) {
        lemma_ident_end(s, i + 1);
    }
}

pub proof fn lemma_alnum_end(s: Seq<char>, i: int)
    requires
        0 <= i <= s.len(),
    ensures
        i <= alnum_end(s, i) <= s.len(),
        alnum_end(s, i) < s.len() ==> !is_alnum_char(s[alnum_end(s, i)]),
        forall|j: int| i <= j < alnum_end(s, i) ==> is_alnum_char(#[trigger] s[j]),
    decreases s.len() - i,
{
    if i < s.len() && is_alnum_char(s[i]) {
        lemma_alnum_end(s, i + 1);
    }
}

pub proof fn lemma_line_end(s: Seq<char>, i: int)
    requires
        0 <= i <= s.len(),
    ensures
        i <= line_end(s, i) <= s.len(),
        line_end(s, i) < s.len() ==> s[line_end(s, i)] == '\n',
        forall|j: int| i <= j < line_end(s, i) ==> #[trigger] s[j] != '\n',
    decreases s.len() - i,
{
    if i < s.len() && s[i] != '\n' {
        lemma_line_end(s, i + 1);
    }
}

pub proof fn lemma_quote_end(s: Seq<char>, i: int)
    requires
        0 <= i <= s.len(),
    ensures
        i <= quote_end(s, i) <= s.len(),
        quote_end(s, i) < s.len() ==> s[quote_end(s, i)] == '"',
        forall|j: int| i <= j < quote_end(s, i) ==> #[trigger] s[j] != '"',
    decreases s.len() - i,
{
    if i < s.len() && s[i] != '"' {
        lemma_quote_end(s, i + 1);
    }
}

pub proof fn lemma_block_close(s: Seq<char>, i: int)
    requires
        0 <= i <= s.len(),
    ensures
        i <= block_close(s, i) <= s.len(),
        block_close(s, i) < s.len() ==> s[block_close(s, i)] == '*' && block_close(s, i) + 1
            < s.len() && s[block_close(s, i) + 1] == '/',
    decreases s.len() - i,
{
    if i < s.len() && !(s[i] == '*' && i + 1 < s.len() && s[i + 1] == '/') {
        lemma_block_close(s, i + 1);
    }
}

/// The position after the run of comments (and the whitespace between
/// and after them) that starts at `i`. A position whose character
/// opens no comment is returned unchanged; a block comment left open
/// at the end of the input is consumed whole.
pub open spec fn comments_end(s: Seq<char>, i: int) -> int
    decreases s.len() - i,
{
    if 0 <= i < s.len() && s[i] == '/' && i + 1 < s.len() && s[i + 1] == '/' {
        let w = ws_end(s, line_end(s, i));
        proof {
            lemma_line_end(s, i);
            lemma_ws_end(s, line_end(s, i));
        }
        if w < s.len() {
            comments_end(s, w)
        } else {
            w
        }
    } else if 0 <= i < s.len() && s[i] == '/' && i + 1 < s.len() && s[i + 1] == '*' {
        let k = block_close(s, i + 1);
        proof {
            lemma_block_close(s, i + 1);
        }
        if k < s.len() {
            let w = ws_end(s, k + 2);
            proof {
                lemma_ws_end(s, k + 2);
            }
            if w < s.len() {
                comments_end(s, w)
            } else {
                w
            }
        } else {
            s.len() as int
        }
    } else {
        i
    }
}

pub proof fn lemma_comments_end(s: Seq<char>, i: int)
    requires
        0 <= i <= s.len(),
    ensures
        i <= comments_end(s, i) <= s.len(),
    decreases s.len() - i,
{
    if 0 <= i < s.len() && s[i] == '/' && i + 1 < s.len() && s[i + 1] == '/' {
        lemma_line_end(s, i);
        lemma_ws_end(s, line_end(s, i));
        let w = ws_end(s, line_end(s, i));
        if w < s.len() {
            lemma_comments_end(s, w);
        }
    } else if 0 <= i < s.len() && s[i] == '/' && i + 1 < s.len() && s[i + 1] == '*' {
        lemma_block_close(s, i + 1);
        let k = block_close(s, i + 1);
        if k < s.len() {
            lemma_ws_end(s, k + 2);
            let w = ws_end(s, k + 2);
            if w < s.len() {
                lemma_comments_end(s, w);
            }
        }
    }
}

/// The diagnostic carried by the token for a run of digits that
/// continues into letters.
pub open spec fn invalid_ident_msg(text: Seq<char>) -> Seq<char> {
    "Invalid identifier \""@ + text + "\"!"@
}

/// The diagnostic carried by the token for a character no rule accepts.
pub open spec fn invalid_symbol_msg(c: char) -> Seq<char> {
    "Invalid symbol \""@ + seq![c] + "\"!"@
}

/// The diagnostic for a string literal with no closing quote.
pub open spec fn unterminated_string_msg() -> Seq<char> {
    "missing terminating \""@
}

/// The diagnostic for a character literal with no closing quote.
pub open spec fn unterminated_char_msg() -> Seq<char> {
    "missing terminating '"@
}

/// The diagnostic for a character literal holding more than one
/// character.
pub open spec fn overlong_char_msg() -> Seq<char> {
    "char literals should only have one character"@
}

/// The token lexed for an identifier or keyword starting at `i`, and
/// the position right after it: the maximal identifier-character run,
/// classified as a keyword when it matches one exactly.
pub open spec fn spec_lex_ident(s: Seq<char>, i: int) -> (TokenModel, int) {
    let e = ident_end(s, i);
    let text = s.subrange(i, e);
    match spec_keyword(text) {
        Some(k) => (TokenModel::Keyword(k), e),
        None => (TokenModel::Id(text), e),
    }
}

/// The token lexed for a numeric literal starting at `i`, and the
/// position right after it. A digit run that continues into letters is
/// one invalid token; a `.` may follow the digits, with a further
/// digit run and a dropped `f` suffix.
pub open spec fn spec_lex_number(s: Seq<char>, i: int) -> (TokenModel, int) {
    let de = digits_end(s, i);
    if de < s.len() && is_alnum_char(s[de]) {
        let ae = alnum_end(s, de);
        (TokenModel::Invalid(invalid_ident_msg(s.subrange(i, ae))), ae)
    } else if de < s.len() && s[de] == '.' {
        let fe = digits_end(s, de + 1);
        let text = s.subrange(i, fe);
        if fe < s.len() && s[fe] == 'f' {
            (TokenModel::Number(text), fe + 1)
        } else {
            (TokenModel::Number(text), fe)
        }
    } else {
        (TokenModel::Number(s.subrange(i, de)), de)
    }
}

/// The token lexed for a string literal starting at `i` (at the
/// opening quote), and the position right after it. The contents are
/// taken verbatim, with a NUL terminator appended; an unterminated
/// literal is one invalid token and consumes the rest of the input.
pub open spec fn spec_lex_string(s: Seq<char>, i: int) -> (TokenModel, int) {
    let e = quote_end(s, i + 1);
    if e < s.len() {
        (TokenModel::String(s.subrange(i + 1, e).push('\0')), e + 1)
    } else {
        (TokenModel::Invalid(unterminated_string_msg()), s.len() as int)
    }
}

/// The token lexed for a character literal starting at `i` (at the
/// opening quote), and the position right after it. A quote right
/// after the opening one stands for the NUL character; the value must
/// be followed by a closing quote, and never by a second alphanumeric
/// character.
pub open spec fn spec_lex_char(s: Seq<char>, i: int) -> (TokenModel, int) {
    if i + 1 >= s.len() {
        (TokenModel::Invalid(unterminated_char_msg()), s.len() as int)
    } else {
        let v = if s[i + 1] == '\'' {
            '\0'
        } else {
            s[i + 1]
        };
        if i + 2 >= s.len() {
            (TokenModel::Invalid(unterminated_char_msg()), s.len() as int)
        } else if is_alnum_char(s[i + 2]) {
            (TokenModel::Invalid(overlong_char_msg()), i + 2)
        } else if s[i + 2] != '\'' {
            (TokenModel::Invalid(unterminated_char_msg()), i + 2)
        } else {
            (TokenModel::Char(v), i + 3)
        }
    }
}

/// The token lexed by the operator classifier at `i`, and the position
/// right after it. One character of lookahead resolves compound forms
/// greedily; with no lookahead character left the end-of-input marker
/// is produced directly.
pub open spec fn spec_lex_operator(s: Seq<char>, i: int) -> (TokenModel, int) {
    if i + 1 >= s.len() {
        (TokenModel::Eof, i)
    } else {
        let c = s[i];
        let n = s[i + 1];
        if c == '+' {
            if n == '=' {
                (TokenModel::Operator(OperatorType::PlusEqual), i + 2)
            } else if n == '+' {
                (TokenModel::Operator(OperatorType::Increment), i + 2)
            } else {
                (TokenModel::Operator(OperatorType::Plus), i + 1)
            }
        } else if c == '-' {
            if n == '=' {
                (TokenModel::Operator(OperatorType::MinusEqual), i + 2)
            } else if n == '-' {
                (TokenModel::Operator(OperatorType::Decrement), i + 2)
            } else {
                (TokenModel::Operator(OperatorType::Minus), i + 1)
            }
        } else if c == '>' {
            if n == '=' {
                (TokenModel::Operator(OperatorType::GreaterThanOrEqual), i + 2)
            } else {
                (TokenModel::Operator(OperatorType::GreaterThan), i + 1)
            }
        } else if c == '<' {
            if n == '=' {
                (TokenModel::Operator(OperatorType::LessThanOrEqual), i + 2)
            } else {
                (TokenModel::Operator(OperatorType::LessThan), i + 1)
            }
        } else if c == '&' {
            if n == '&' {
                (TokenModel::Operator(OperatorType::And), i + 2)
            } else {
                (TokenModel::Operator(OperatorType::BitwiseAnd), i + 1)
            }
        } else if c == '|' {
            if n == '|' {
                (TokenModel::Operator(OperatorType::Or), i + 2)
            } else {
                (TokenModel::Operator(OperatorType::BitwiseOr), i + 1)
            }
        } else if c == '=' {
            if n == '=' {
                (TokenModel::Operator(OperatorType::Equals), i + 2)
            } else {
                (TokenModel::Operator(OperatorType::Assign), i + 1)
            }
        } else if c == '!' {
            if n == '=' {
                (TokenModel::Operator(OperatorType::NotEqual), i + 2)
            } else {
                (TokenModel::Operator(OperatorType::ExclamationPoint), i + 1)
            }
        } else if c == '*' {
            if n == '=' {
                (TokenModel::Operator(OperatorType::AsteriskEqual), i + 2)
            } else {
                (TokenModel::Operator(OperatorType::Asterisk), i + 1)
            }
        } else if c == '/' {
            if n == '=' {
                (TokenModel::Operator(OperatorType::DivideEqual), i + 2)
            } else {
                (TokenModel::Operator(OperatorType::Divide), i + 1)
            }
        } else {
            (TokenModel::Invalid(invalid_symbol_msg(c)), i + 1)
        }
    }
}

/// The token lexed at a position known to hold neither whitespace nor
/// a comment, and the position right after it: the orchestrator's
/// dispatch on the current character.
pub open spec fn spec_dispatch(s: Seq<char>, i: int) -> (TokenModel, int) {
    let c = s[i];
    if is_ident_start_char(c) {
        spec_lex_ident(s, i)
    } else if is_digit_char(c) || c == '.' {
        spec_lex_number(s, i)
    } else if c == '"' {
        spec_lex_string(s, i)
    } else if c == '\'' {
        spec_lex_char(s, i)
    } else if c == '(' {
        (TokenModel::OpenParen, i + 1)
    } else if c == ')' {
        (TokenModel::CloseParen, i + 1)
    } else if c == '{' {
        (TokenModel::OpenBrace, i + 1)
    } else if c == '}' {
        (TokenModel::CloseBrace, i + 1)
    } else if c == '[' {
        (TokenModel::OpenBracket, i + 1)
    } else if c == ']' {
        (TokenModel::CloseBracket, i + 1)
    } else if c == ';' {
        (TokenModel::SemiColon, i + 1)
    } else {
        spec_lex_operator(s, i)
    }
}

/// The dispatched token either is the end-of-input marker or sits
/// strictly before the position returned with it.
pub proof fn lemma_dispatch_bounds(s: Seq<char>, i: int)
    requires
        0 <= i < s.len(),
    ensures
        !(spec_dispatch(s, i).0 is Eof) ==> i < spec_dispatch(s, i).1 <= s.len(),
        spec_dispatch(s, i).0 is Eof ==> i + 1 >= s.len(),
{
    let c = s[i];
    if is_ident_start_char(c) {
        lemma_ident_end(s, i);
    } else if is_digit_char(c) || c == '.' {
        lemma_digits_end(s, i);
        let de = digits_end(s, i);
        if de < s.len() && is_alnum_char(s[de]) {
            lemma_alnum_end(s, de);
        } else if de < s.len() && s[de] == '.' {
            lemma_digits_end(s, de + 1);
        }
    } else if c == '"' {
        lemma_quote_end(s, i + 1);
    }
}

/// The tokens of the input from position `i` on: skip whitespace, then
/// comments, and either emit the end marker or dispatch one sub-lexer
/// and continue after the token it consumed. The sequence always ends
/// in exactly one end-of-input marker.
pub open spec fn spec_tokens_from(s: Seq<char>, i: int) -> Seq<TokenModel>
    decreases s.len() - i,
{
    if 0 <= i <= s.len() {
        let j = ws_end(s, i);
        proof {
            lemma_ws_end(s, i);
        }
        if j >= s.len() {
            seq![TokenModel::Eof]
        } else {
            let k = comments_end(s, j);
            proof {
                lemma_comments_end(s, j);
            }
            if k >= s.len() {
                seq![TokenModel::Eof]
            } else {
                let tm = spec_dispatch(s, k);
                proof {
                    lemma_dispatch_bounds(s, k);
                }
                if tm.0 is Eof {
                    seq![TokenModel::Eof]
                } else {
                    seq![tm.0] + spec_tokens_from(s, tm.1)
                }
            }
        }
    } else {
        seq![TokenModel::Eof]
    }
}

/// The full token sequence of an input text.
pub open spec fn spec_tokens(s: Seq<char>) -> Seq<TokenModel> {
    spec_tokens_from(s, 0)
}

} // verus!
