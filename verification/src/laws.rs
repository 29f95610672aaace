//! Laws of the token model: every scan ends in exactly one end
//! marker, inputs of nothing but whitespace and comments produce no
//! token, and the text inside an identifier or number token lexes
//! back to the same token.
use vstd::prelude::*;

use crate::model::block_close;
use crate::model::comments_end;
use crate::model::digits_end;
use crate::model::ident_end;
use crate::model::is_alnum_char;
use crate::model::is_digit_char;
use crate::model::is_ident_char;
use crate::model::is_ident_start_char;
use crate::model::is_ws_char;
use crate::model::lemma_block_close;
use crate::model::lemma_comments_end;
use crate::model::lemma_dispatch_bounds;
use crate::model::lemma_digits_end;
use crate::model::lemma_ident_end;
use crate::model::lemma_line_end;
use crate::model::lemma_ws_end;
use crate::model::line_end;
use crate::model::spec_dispatch;
use crate::model::spec_lex_ident;
use crate::model::spec_lex_number;
use crate::model::spec_tokens;
use crate::model::spec_tokens_from;
use crate::model::ws_end;
use crate::token::TokenModel;

verus! {

proof fn lemma_single_end_marker_from(s: Seq<char>, i: int)
    ensures
        spec_tokens_from(s, i).len() >= 1,
        spec_tokens_from(s, i).last() is Eof,
        forall|j: int|
            0 <= j < spec_tokens_from(s, i).len() - 1 ==> !(#[trigger] spec_tokens_from(s, i)[j]
                is Eof),
    decreases s.len() - i,
{
    if 0 <= i <= s.len() {
        lemma_ws_end(s, i);
        let j = ws_end(s, i);
        if j < s.len() {
            lemma_comments_end(s, j);
            let k = comments_end(s, j);
            if k < s.len() {
                lemma_dispatch_bounds(s, k);
                let tm = spec_dispatch(s, k);
                if !(tm.0 is Eof) {
                    lemma_single_end_marker_from(s, tm.1);
                    let rest = spec_tokens_from(s, tm.1);
                    let whole = spec_tokens_from(s, i);
                    assert(whole.last() == rest.last());
                    assert forall|m: int| 0 <= m < whole.len() - 1 implies !(#[trigger] whole[m]
                        is Eof) by {
                        if m > 0 {
                            assert(whole[m] == rest[m - 1]);
                        }
                    }
                }
            }
        }
    }
}

/// Law: tokenizing any input yields at least the end-of-input marker,
/// the last token is that marker, and it appears nowhere earlier.
pub proof fn lemma_single_end_marker(s: Seq<char>)
    ensures
        spec_tokens(s).len() >= 1,
        spec_tokens(s).last() is Eof,
        forall|j: int| 0 <= j < spec_tokens(s).len() - 1 ==> !(#[trigger] spec_tokens(s)[j] is Eof),
{
    lemma_single_end_marker_from(s, 0);
}

/// The input from position `i` on holds nothing but whitespace and
/// comments. A block comment left open at the end of the input counts
/// as a comment.
pub open spec fn trivia_from(s: Seq<char>, i: int) -> bool
    decreases s.len() - i,
{
    if i >= s.len() {
        true
    } else if 0 <= i && is_ws_char(s[i]) {
        trivia_from(s, i + 1)
    } else if 0 <= i && s[i] == '/' && i + 1 < s.len() && s[i + 1] == '/' {
        proof {
            lemma_line_end(s, i);
        }
        trivia_from(s, line_end(s, i))
    } else if 0 <= i && s[i] == '/' && i + 1 < s.len() && s[i + 1] == '*' {
        proof {
            lemma_block_close(s, i + 1);
        }
        block_close(s, i + 1) >= s.len() || trivia_from(s, block_close(s, i + 1) + 2)
    } else {
        false
    }
}

/// The whole input holds nothing but whitespace and comments.
pub open spec fn only_trivia(s: Seq<char>) -> bool {
    trivia_from(s, 0)
}

proof fn lemma_trivia_ws(s: Seq<char>, i: int)
    requires
        0 <= i <= s.len(),
        trivia_from(s, i),
    ensures
        trivia_from(s, ws_end(s, i)),
    decreases s.len() - i,
{
    if i < s.len() && is_ws_char(s[i]) {
        lemma_trivia_ws(s, i + 1);
    }
}

proof fn lemma_trivia_comments(s: Seq<char>, i: int)
    requires
        0 <= i <= s.len(),
        trivia_from(s, i),
        i < s.len() ==> !is_ws_char(s[i]),
    ensures
        comments_end(s, i) == s.len(),
    decreases s.len() - i,
{
    if i < s.len() {
        if s[i] == '/' && i + 1 < s.len() && s[i + 1] == '/' {
            lemma_line_end(s, i);
            lemma_ws_end(s, line_end(s, i));
            lemma_trivia_ws(s, line_end(s, i));
            let w = ws_end(s, line_end(s, i));
            if w < s.len() {
                lemma_trivia_comments(s, w);
            }
        } else if s[i] == '/' && i + 1 < s.len() && s[i + 1] == '*' {
            lemma_block_close(s, i + 1);
            let k = block_close(s, i + 1);
            if k < s.len() {
                lemma_ws_end(s, k + 2);
                lemma_trivia_ws(s, k + 2);
                let w = ws_end(s, k + 2);
                if w < s.len() {
                    lemma_trivia_comments(s, w);
                }
            }
        }
    }
}

/// Law: an input of nothing but whitespace and comments tokenizes to
/// the end-of-input marker alone.
pub proof fn lemma_trivia_scans_to_end_marker(s: Seq<char>)
    requires
        only_trivia(s),
    ensures
        spec_tokens(s) == seq![TokenModel::Eof],
{
    lemma_ws_end(s, 0);
    lemma_trivia_ws(s, 0);
    let j = ws_end(s, 0);
    if j < s.len() {
        lemma_trivia_comments(s, j);
    }
}

/// The range `[i, p)` of the input is a well-formed, self-delimiting
/// run of comments and whitespace: every line comment in it ends in a
/// line feed before `p`, and every block comment in it closes before
/// `p`.
pub open spec fn trivia_run(s: Seq<char>, i: int, p: int) -> bool
    decreases p - i,
{
    if i >= p {
        i == p
    } else if 0 <= i < s.len() && is_ws_char(s[i]) {
        trivia_run(s, i + 1, p)
    } else if 0 <= i < s.len() && s[i] == '/' && i + 1 < p && s[i + 1] == '/' && line_end(s, i)
        < p {
        proof {
            lemma_line_end(s, i);
        }
        trivia_run(s, line_end(s, i), p)
    } else if 0 <= i < s.len() && s[i] == '/' && i + 1 < p && s[i + 1] == '*' && block_close(
        s,
        i + 1,
    ) + 2 <= p {
        proof {
            lemma_block_close(s, i + 1);
        }
        trivia_run(s, block_close(s, i + 1) + 2, p)
    } else {
        false
    }
}

proof fn lemma_ws_end_exact(s: Seq<char>, k: int, m: int)
    requires
        0 <= k <= m <= s.len(),
        forall|j: int| k <= j < m ==> is_ws_char(#[trigger] s[j]),
        m < s.len() ==> !is_ws_char(s[m]),
    ensures
        ws_end(s, k) == m,
    decreases m - k,
{
    if k < m {
        lemma_ws_end_exact(s, k + 1, m);
    }
}

proof fn lemma_trivia_run_skipped(s: Seq<char>, i: int, p: int)
    requires
        0 <= i <= p <= s.len(),
        trivia_run(s, i, p),
    ensures
        comments_end(s, ws_end(s, i)) == comments_end(s, ws_end(s, p)),
    decreases p - i,
{
    if i == p {
    } else if is_ws_char(s[i]) {
        lemma_trivia_run_skipped(s, i + 1, p);
    } else if s[i] == '/' && i + 1 < p && s[i + 1] == '/' && line_end(s, i) < p {
        let nl = line_end(s, i);
        lemma_line_end(s, i);
        lemma_ws_end(s, nl);
        let w = ws_end(s, nl);
        lemma_trivia_run_skipped(s, nl, p);
        if w >= s.len() {
            lemma_ws_end_exact(s, p, s.len() as int);
        }
    } else {
        let k = block_close(s, i + 1);
        lemma_block_close(s, i + 1);
        lemma_ws_end(s, k + 2);
        let w = ws_end(s, k + 2);
        lemma_trivia_run_skipped(s, k + 2, p);
        if w >= s.len() {
            lemma_ws_end_exact(s, p, s.len() as int);
        }
    }
}

/// Law: a well-formed run of comments and whitespace contributes no
/// token and does not alter the tokens around it: wherever the scan
/// would produce its next token, the scan from the start of such a run
/// equals the scan from the position right after it.
pub proof fn lemma_comment_run_adds_no_token(s: Seq<char>, i: int, p: int)
    requires
        0 <= i <= p <= s.len(),
        trivia_run(s, i, p),
    ensures
        spec_tokens_from(s, i) == spec_tokens_from(s, p),
{
    lemma_trivia_run_skipped(s, i, p);
    lemma_ws_end(s, i);
    lemma_ws_end(s, p);
    lemma_comments_end(s, ws_end(s, i));
    lemma_comments_end(s, ws_end(s, p));
    let k = comments_end(s, ws_end(s, i));
    if k >= s.len() {
        assert(spec_tokens_from(s, i) =~= seq![TokenModel::Eof]);
        assert(spec_tokens_from(s, p) =~= seq![TokenModel::Eof]);
    }
}

proof fn lemma_digits_end_exact(t: Seq<char>, k: int, m: int)
    requires
        0 <= k <= m <= t.len(),
        forall|j: int| k <= j < m ==> is_digit_char(#[trigger] t[j]),
        m < t.len() ==> !is_digit_char(t[m]),
    ensures
        digits_end(t, k) == m,
    decreases m - k,
{
    if k < m {
        lemma_digits_end_exact(t, k + 1, m);
    }
}

proof fn lemma_ident_end_exact(t: Seq<char>, k: int, m: int)
    requires
        0 <= k <= m <= t.len(),
        forall|j: int| k <= j < m ==> is_ident_char(#[trigger] t[j]),
        m < t.len() ==> !is_ident_char(t[m]),
    ensures
        ident_end(t, k) == m,
    decreases m - k,
{
    if k < m {
        lemma_ident_end_exact(t, k + 1, m);
    }
}

/// Law: the text inside an identifier token, fed back in as a whole
/// input, lexes to that same identifier token and the end marker.
pub proof fn lemma_id_token_idempotent(s: Seq<char>, i: int)
    requires
        0 <= i < s.len(),
        is_ident_start_char(s[i]),
    ensures
        spec_lex_ident(s, i).0 matches TokenModel::Id(text) ==> spec_tokens(text) == seq![
            TokenModel::Id(text),
            TokenModel::Eof,
        ],
{
    lemma_ident_end(s, i);
    let e = ident_end(s, i);
    let text = s.subrange(i, e);
    if spec_lex_ident(s, i).0 is Id {
        assert(forall|j: int| 0 <= j < text.len() ==> is_ident_char(#[trigger] text[j]));
        lemma_ident_end_exact(text, 0, text.len() as int);
        assert(text.subrange(0, text.len() as int) =~= text);
        assert(ws_end(text, 0) == 0);
        assert(comments_end(text, 0) == 0);
        lemma_ws_end(text, text.len() as int);
        assert(spec_tokens_from(text, text.len() as int) =~= seq![TokenModel::Eof]);
        assert(spec_tokens(text) =~= seq![TokenModel::Id(text), TokenModel::Eof]);
    }
}

/// Law: the text inside a number token, fed back in as a whole input,
/// lexes to that same number token and the end marker.
pub proof fn lemma_number_token_idempotent(s: Seq<char>, i: int)
    requires
        0 <= i < s.len(),
        is_digit_char(s[i]) || s[i] == '.',
    ensures
        spec_lex_number(s, i).0 matches TokenModel::Number(text) ==> spec_tokens(text) == seq![
            TokenModel::Number(text),
            TokenModel::Eof,
        ],
{
    lemma_digits_end(s, i);
    let de = digits_end(s, i);
    if spec_lex_number(s, i).0 is Number {
        if de < s.len() && is_alnum_char(s[de]) {
            // the invalid-identifier case carries no number token
        } else if de < s.len() && s[de] == '.' {
            lemma_digits_end(s, de + 1);
            let fe = digits_end(s, de + 1);
            let text = s.subrange(i, fe);
            assert(forall|j: int| 0 <= j < de - i ==> is_digit_char(#[trigger] text[j]));
            assert(text[de - i] == '.');
            lemma_digits_end_exact(text, 0, de - i);
            assert(forall|j: int|
                de - i + 1 <= j < text.len() ==> is_digit_char(#[trigger] text[j]));
            lemma_digits_end_exact(text, de - i + 1, text.len() as int);
            assert(ws_end(text, 0) == 0);
            assert(comments_end(text, 0) == 0);
            assert(text.subrange(0, text.len() as int) =~= text);
            lemma_ws_end(text, text.len() as int);
            assert(spec_tokens_from(text, text.len() as int) =~= seq![TokenModel::Eof]);
            assert(spec_tokens(text) =~= seq![TokenModel::Number(text), TokenModel::Eof]);
        } else {
            let text = s.subrange(i, de);
            assert(forall|j: int| 0 <= j < text.len() ==> is_digit_char(#[trigger] text[j]));
            lemma_digits_end_exact(text, 0, text.len() as int);
            assert(ws_end(text, 0) == 0);
            assert(comments_end(text, 0) == 0);
            assert(text.subrange(0, text.len() as int) =~= text);
            lemma_ws_end(text, text.len() as int);
            assert(spec_tokens_from(text, text.len() as int) =~= seq![TokenModel::Eof]);
            assert(spec_tokens(text) =~= seq![TokenModel::Number(text), TokenModel::Eof]);
        }
    }
}

} // verus!
