//! The executable sub-lexers: each classifies one token family at the
//! cursor and is proved to produce exactly the token and cursor
//! advance of the model in `model`.
use vstd::prelude::*;
use vstd::string::StringExecFns;

use crate::character_stream::CharacterStream;
use crate::model::alnum_end;
use crate::model::block_close;
use crate::model::comments_end;
use crate::model::digits_end;
use crate::model::ident_end;
use crate::model::is_alnum_char;
use crate::model::is_digit_char;
use crate::model::is_ident_char;
use crate::model::is_ident_start_char;
use crate::model::is_letter_char;
use crate::model::lemma_block_close;
use crate::model::lemma_line_end;
use crate::model::lemma_ws_end;
use crate::model::line_end;
use crate::model::quote_end;
use crate::model::spec_lex_char;
use crate::model::spec_lex_ident;
use crate::model::spec_lex_number;
use crate::model::spec_lex_operator;
use crate::model::spec_lex_string;
use crate::token::KeywordType;
use crate::token::OperatorType;
use crate::token::Token;

verus! {

/// Relies on String::push: it appends the given character to the end
/// of the string.
#[verifier::external_body]
fn push_char(s: &mut String, c: char)
    ensures
        final(s)@ == old(s)@.push(c),
{
    s.push(c)
}

/// Recognizes an ASCII decimal digit.
pub fn is_digit(c: char) -> (b: bool)
    ensures
        b == is_digit_char(c),
{
    '0' <= c && c <= '9'
}

/// Recognizes an ASCII letter.
pub fn is_letter(c: char) -> (b: bool)
    ensures
        b == is_letter_char(c),
{
    ('a' <= c && c <= 'z') || ('A' <= c && c <= 'Z')
}

/// Recognizes an ASCII letter or digit.
pub fn is_alnum(c: char) -> (b: bool)
    ensures
        b == is_alnum_char(c),
{
    is_letter(c) || is_digit(c)
}

/// Recognizes a character that may continue an identifier.
pub fn is_ident_part(c: char) -> (b: bool)
    ensures
        b == is_ident_char(c),
{
    is_alnum(c) || c == '_'
}

/// Recognizes a character that may begin an identifier.
pub fn is_ident_start(c: char) -> (b: bool)
    ensures
        b == is_ident_start_char(c),
{
    is_letter(c) || c == '_'
}

/// Consumes the run of comments (and the whitespace between and after
/// them) at the cursor; a cursor that opens no comment is left alone.
pub fn skip_comments(cs: &mut CharacterStream)
    requires
        old(cs).wf(),
        0 <= old(cs).position() < old(cs).text().len(),
    ensures
        final(cs).wf(),
        final(cs).text() == old(cs).text(),
        final(cs).position() == comments_end(old(cs).text(), old(cs).position()),
{
    let ghost s = old(cs).text();
    let ghost i0 = old(cs).position();
    loop
        invariant_except_break
            cs.wf(),
            cs.text() == s,
            0 <= i0 <= s.len(),
            0 <= cs.position() < s.len(),
            comments_end(s, i0) == comments_end(s, cs.position()),
        ensures
            cs.wf(),
            cs.text() == s,
            cs.position() == comments_end(s, i0),
        decreases s.len() - cs.position(),
    {
        let ghost p = cs.position();
        if cs.current_char() != '/' {
            break;
        }
        let lookahead = cs.next_char();
        if lookahead.is_none() {
            break;
        }
        let c2 = lookahead.unwrap();
        if c2 == '/' {
            while cs.check_bounds() && cs.current_char() != '\n'
                invariant
                    cs.wf(),
                    cs.text() == s,
                    0 <= p <= cs.position() <= s.len(),
                    line_end(s, p) == line_end(s, cs.position()),
                decreases s.len() - cs.position(),
            {
                cs.advance_by(1);
            }
            cs.skip_whitespace();
            proof {
                lemma_line_end(s, p);
                lemma_ws_end(s, line_end(s, p));
            }
            if !cs.check_bounds() {
                break;
            }
        } else if c2 == '*' {
            cs.advance_by(1);
            let mut closed = false;
            loop
                invariant_except_break
                    cs.wf(),
                    cs.text() == s,
                    0 <= p,
                    p + 1 <= cs.position() <= s.len(),
                    block_close(s, p + 1) == block_close(s, cs.position()),
                    !closed,
                ensures
                    cs.wf(),
                    cs.text() == s,
                    p + 1 <= cs.position() <= s.len(),
                    closed ==> block_close(s, p + 1) < s.len() && cs.position() == block_close(
                        s,
                        p + 1,
                    ) + 2,
                    !closed ==> cs.position() == s.len() && block_close(s, p + 1) == s.len(),
                decreases s.len() - cs.position(),
            {
                if !cs.check_bounds() {
                    break;
                }
                let mut found = false;
                if cs.current_char() == '*' {
                    let after = cs.next_char();
                    if after.is_some() && after.unwrap() == '/' {
                        found = true;
                    }
                }
                if found {
                    cs.advance_by(2);
                    closed = true;
                    break;
                }
                cs.advance_by(1);
            }
            if !closed {
                break;
            }
            cs.skip_whitespace();
            proof {
                lemma_block_close(s, p + 1);
                lemma_ws_end(s, block_close(s, p + 1) + 2);
            }
            if !cs.check_bounds() {
                break;
            }
        } else {
            break;
        }
    }
}

/// Greedily consumes a maximal identifier run and classifies it as a
/// keyword on an exact match, or as an identifier carrying the text
/// verbatim.
#[verifier::loop_isolation(false)]
pub fn lex_identifier_or_keyword(cs: &mut CharacterStream) -> (token: Token)
    requires
        old(cs).wf(),
        0 <= old(cs).position() <= old(cs).text().len(),
    ensures
        final(cs).wf(),
        final(cs).text() == old(cs).text(),
        token@ == spec_lex_ident(old(cs).text(), old(cs).position()).0,
        final(cs).position() == spec_lex_ident(old(cs).text(), old(cs).position()).1,
{
    let ghost s = old(cs).text();
    let ghost i = old(cs).position();
    let mut id = String::new();
    while cs.check_bounds() && is_ident_part(cs.current_char())
        invariant
            cs.wf(),
            cs.text() == s,
            i <= cs.position() <= s.len(),
            ident_end(s, i) == ident_end(s, cs.position()),
            id@ == s.subrange(i, cs.position()),
        decreases s.len() - cs.position(),
    {
        let c = cs.current_char();
        push_char(&mut id, c);
        cs.advance_by(1);
        proof {
            assert(s.subrange(i, cs.position()) =~= s.subrange(i, cs.position() - 1).push(
                s[cs.position() - 1],
            ));
        }
    }
    if id == String::from_str("for") {
        Token::Keyword(KeywordType::For)
    } else if id == String::from_str("while") {
        Token::Keyword(KeywordType::While)
    } else if id == String::from_str("if") {
        Token::Keyword(KeywordType::If)
    } else if id == String::from_str("else") {
        Token::Keyword(KeywordType::Else)
    } else if id == String::from_str("int") {
        Token::Keyword(KeywordType::Int)
    } else if id == String::from_str("float") {
        Token::Keyword(KeywordType::Float)
    } else if id == String::from_str("double") {
        Token::Keyword(KeywordType::Double)
    } else if id == String::from_str("long") {
        Token::Keyword(KeywordType::Long)
    } else if id == String::from_str("return") {
        Token::Keyword(KeywordType::Return)
    } else if id == String::from_str("char") {
        Token::Keyword(KeywordType::Char)
    } else {
        Token::Id(id)
    }
}

/// Greedily consumes a numeric literal: a digit run that continues
/// into letters is one invalid token; otherwise a `.`, a further digit
/// run, and a dropped `f` suffix may follow.
#[verifier::loop_isolation(false)]
pub fn lex_number(cs: &mut CharacterStream) -> (token: Token)
    requires
        old(cs).wf(),
        0 <= old(cs).position() <= old(cs).text().len(),
    ensures
        final(cs).wf(),
        final(cs).text() == old(cs).text(),
        token@ == spec_lex_number(old(cs).text(), old(cs).position()).0,
        final(cs).position() == spec_lex_number(old(cs).text(), old(cs).position()).1,
{
    let ghost s = old(cs).text();
    let ghost i = old(cs).position();
    let mut num = String::new();
    while cs.check_bounds() && is_digit(cs.current_char())
        invariant
            cs.wf(),
            cs.text() == s,
            i <= cs.position() <= s.len(),
            digits_end(s, i) == digits_end(s, cs.position()),
            num@ == s.subrange(i, cs.position()),
        decreases s.len() - cs.position(),
    {
        let c = cs.current_char();
        push_char(&mut num, c);
        cs.advance_by(1);
        proof {
            assert(s.subrange(i, cs.position()) =~= s.subrange(i, cs.position() - 1).push(
                s[cs.position() - 1],
            ));
        }
    }
    let ghost de = digits_end(s, i);
    if cs.check_bounds() && is_alnum(cs.current_char()) {
        let mut invalid_id = String::new();
        invalid_id.append(num.as_str());
        while cs.check_bounds() && is_alnum(cs.current_char())
            invariant
                cs.wf(),
                cs.text() == s,
                i <= cs.position() <= s.len(),
                alnum_end(s, de) == alnum_end(s, cs.position()),
                invalid_id@ == s.subrange(i, cs.position()),
            decreases s.len() - cs.position(),
        {
            let c = cs.current_char();
            push_char(&mut invalid_id, c);
            cs.advance_by(1);
            proof {
                assert(s.subrange(i, cs.position()) =~= s.subrange(i, cs.position() - 1).push(
                    s[cs.position() - 1],
                ));
            }
        }
        let mut msg = String::from_str("Invalid identifier \"");
        msg.append(invalid_id.as_str());
        msg.append("\"!");
        return Token::Invalid(msg);
    }
    if cs.check_bounds() && cs.current_char() == '.' {
        push_char(&mut num, '.');
        cs.advance_by(1);
        proof {
            assert(s.subrange(i, cs.position()) =~= s.subrange(i, cs.position() - 1).push(
                s[cs.position() - 1],
            ));
        }
        while cs.check_bounds() && is_digit(cs.current_char())
            invariant
                cs.wf(),
                cs.text() == s,
                de + 1 <= cs.position() <= s.len(),
                digits_end(s, de + 1) == digits_end(s, cs.position()),
                num@ == s.subrange(i, cs.position()),
            decreases s.len() - cs.position(),
        {
            let c = cs.current_char();
            push_char(&mut num, c);
            cs.advance_by(1);
            proof {
                assert(s.subrange(i, cs.position()) =~= s.subrange(i, cs.position() - 1).push(
                    s[cs.position() - 1],
                ));
            }
        }
        if cs.check_bounds() && cs.current_char() == 'f' {
            cs.advance_by(1);
        }
    }
    Token::Number(num)
}

/// Consumes a string literal at the opening quote: the contents are
/// taken verbatim with a NUL terminator appended, and a literal the
/// input ends inside becomes one invalid token.
#[verifier::loop_isolation(false)]
pub fn lex_string(cs: &mut CharacterStream) -> (token: Token)
    requires
        old(cs).wf(),
        0 <= old(cs).position() < old(cs).text().len(),
        old(cs).text()[old(cs).position()] == '"',
    ensures
        final(cs).wf(),
        final(cs).text() == old(cs).text(),
        token@ == spec_lex_string(old(cs).text(), old(cs).position()).0,
        final(cs).position() == spec_lex_string(old(cs).text(), old(cs).position()).1,
{
    let ghost s = old(cs).text();
    let ghost i = old(cs).position();
    let mut string = String::new();
    cs.advance_by(1);
    while cs.check_bounds() && cs.current_char() != '"'
        invariant
            cs.wf(),
            cs.text() == s,
            i + 1 <= cs.position() <= s.len(),
            quote_end(s, i + 1) == quote_end(s, cs.position()),
            string@ == s.subrange(i + 1, cs.position()),
        decreases s.len() - cs.position(),
    {
        let c = cs.current_char();
        push_char(&mut string, c);
        cs.advance_by(1);
        proof {
            assert(s.subrange(i + 1, cs.position()) =~= s.subrange(i + 1, cs.position() - 1).push(
                s[cs.position() - 1],
            ));
        }
    }
    if !cs.check_bounds() {
        return Token::Invalid(String::from_str("missing terminating \""));
    }
    cs.advance_by(1);
    push_char(&mut string, '\0');
    Token::String(string)
}

/// Consumes a character literal at the opening quote: an immediately
/// closing quote stands for the NUL character, a second alphanumeric
/// character or a missing closing quote is one invalid token.
pub fn lex_char(cs: &mut CharacterStream) -> (token: Token)
    requires
        old(cs).wf(),
        0 <= old(cs).position() < old(cs).text().len(),
        old(cs).text()[old(cs).position()] == '\'',
    ensures
        final(cs).wf(),
        final(cs).text() == old(cs).text(),
        token@ == spec_lex_char(old(cs).text(), old(cs).position()).0,
        final(cs).position() == spec_lex_char(old(cs).text(), old(cs).position()).1,
{
    cs.advance_by(1);
    if !cs.check_bounds() {
        return Token::Invalid(String::from_str("missing terminating '"));
    }
    let first = cs.current_char();
    let value = if first == '\'' {
        '\0'
    } else {
        first
    };
    cs.advance_by(1);
    if !cs.check_bounds() {
        return Token::Invalid(String::from_str("missing terminating '"));
    }
    let second = cs.current_char();
    if is_alnum(second) {
        return Token::Invalid(String::from_str("char literals should only have one character"));
    }
    if second != '\'' {
        return Token::Invalid(String::from_str("missing terminating '"));
    }
    cs.advance_by(1);
    Token::Char(value)
}

/// Resolves single- against double-character operators with one
/// character of lookahead; a character no rule accepts is one invalid
/// token, and with no lookahead character left the end-of-input marker
/// is produced directly.
pub fn lex_operator(cs: &mut CharacterStream) -> (token: Token)
    requires
        old(cs).wf(),
        0 <= old(cs).position() < old(cs).text().len(),
    ensures
        final(cs).wf(),
        final(cs).text() == old(cs).text(),
        token@ == spec_lex_operator(old(cs).text(), old(cs).position()).0,
        final(cs).position() == spec_lex_operator(old(cs).text(), old(cs).position()).1,
{
    let lookahead = cs.next_char();
    if lookahead.is_none() {
        return Token::Eof;
    }
    let next_char = lookahead.unwrap();
    let c = cs.current_char();
    if c == '+' {
        if next_char == '=' {
            cs.advance_by(2);
            Token::Operator(OperatorType::PlusEqual)
        } else if next_char == '+' {
            cs.advance_by(2);
            Token::Operator(OperatorType::Increment)
        } else {
            cs.advance_by(1);
            Token::Operator(OperatorType::Plus)
        }
    } else if c == '-' {
        if next_char == '=' {
            cs.advance_by(2);
            Token::Operator(OperatorType::MinusEqual)
        } else if next_char == '-' {
            cs.advance_by(2);
            Token::Operator(OperatorType::Decrement)
        } else {
            cs.advance_by(1);
            Token::Operator(OperatorType::Minus)
        }
    } else if c == '>' {
        if next_char == '=' {
            cs.advance_by(2);
            Token::Operator(OperatorType::GreaterThanOrEqual)
        } else {
            cs.advance_by(1);
            Token::Operator(OperatorType::GreaterThan)
        }
    } else if c == '<' {
        if next_char == '=' {
            cs.advance_by(2);
            Token::Operator(OperatorType::LessThanOrEqual)
        } else {
            cs.advance_by(1);
            Token::Operator(OperatorType::LessThan)
        }
    } else if c == '&' {
        if next_char == '&' {
            cs.advance_by(2);
            Token::Operator(OperatorType::And)
        } else {
            cs.advance_by(1);
            Token::Operator(OperatorType::BitwiseAnd)
        }
    } else if c == '|' {
        if next_char == '|' {
            cs.advance_by(2);
            Token::Operator(OperatorType::Or)
        } else {
            cs.advance_by(1);
            Token::Operator(OperatorType::BitwiseOr)
        }
    } else if c == '=' {
        if next_char == '=' {
            cs.advance_by(2);
            Token::Operator(OperatorType::Equals)
        } else {
            cs.advance_by(1);
            Token::Operator(OperatorType::Assign)
        }
    } else if c == '!' {
        if next_char == '=' {
            cs.advance_by(2);
            Token::Operator(OperatorType::NotEqual)
        } else {
            cs.advance_by(1);
            Token::Operator(OperatorType::ExclamationPoint)
        }
    } else if c == '*' {
        if next_char == '=' {
            cs.advance_by(2);
            Token::Operator(OperatorType::AsteriskEqual)
        } else {
            cs.advance_by(1);
            Token::Operator(OperatorType::Asterisk)
        }
    } else if c == '/' {
        if next_char == '=' {
            cs.advance_by(2);
            Token::Operator(OperatorType::DivideEqual)
        } else {
            cs.advance_by(1);
            Token::Operator(OperatorType::Divide)
        }
    } else {
        let mut msg = String::from_str("Invalid symbol \"");
        push_char(&mut msg, c);
        msg.append("\"!");
        cs.advance_by(1);
        proof {
            assert("Invalid symbol \""@.push(c) =~= "Invalid symbol \""@ + seq![c]);
        }
        Token::Invalid(msg)
    }
}

} // verus!
