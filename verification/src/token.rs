//! The command tokenizer: splits a raw command line into typed tokens.
//! Whitespace runs are kept as discrete tokens because the interpreter
//! validates token positions, not just token content.

use vstd::prelude::*;
use crate::text;

verus! {

/// The kind of a token.
#[derive(Clone, Copy, Debug, PartialEq, Eq, Structural)]
pub enum TokenType {
    Word,
    Whitespace,
    /// A quoted segment, with the quotes stripped.
    QuotedString,
}

/// One token of a command line.
#[derive(Clone, Debug, PartialEq, Eq)]
pub struct Token {
    pub text: String,
    pub token_type: TokenType,
}

/// Why a command line failed to tokenize.
#[derive(Clone, Copy, Debug, PartialEq, Eq, Structural)]
pub enum TokenizeError {
    /// A quote was opened and never closed.
    UnterminatedQuote,
}

/// The mathematical model of one token.
pub struct TokenModel {
    pub text: Seq<char>,
    pub kind: TokenType,
}

/// Whether `c` separates tokens as whitespace.
pub open spec fn spec_is_space(c: char) -> bool {
    c == ' ' || c == '\t'
}

/// Whether `c` opens or closes a quoted segment.
pub open spec fn spec_is_quote(c: char) -> bool {
    c == '\'' || c == '"'
}

/// The characters a whitespace run consists of.
pub open spec fn space_pred() -> spec_fn(char) -> bool {
    |c: char| spec_is_space(c)
}

/// The characters a word consists of.
pub open spec fn word_pred() -> spec_fn(char) -> bool {
    |c: char| !spec_is_space(c) && !spec_is_quote(c)
}

/// The characters inside a segment quoted with `q`.
pub open spec fn not_char_pred(q: char) -> spec_fn(char) -> bool {
    |c: char| c != q
}

/// The first index at or after `i` whose character fails `f`, or the
/// end of `s`.
pub open spec fn spec_scan(s: Seq<char>, i: int, f: spec_fn(char) -> bool) -> int
    decreases s.len() - i,
{
    if i < 0 || i >= s.len() {
        s.len() as int
    } else if f(s[i]) {
        spec_scan(s, i + 1, f)
    } else {
        i
    }
}

/// A scan never moves backwards and never passes the end.
pub proof fn lemma_scan_bounds(s: Seq<char>, i: int, f: spec_fn(char) -> bool)
    requires
        0 <= i <= s.len(),
    ensures
        i <= spec_scan(s, i, f) <= s.len(),
        i < s.len() && f(s[i]) ==> i + 1 <= spec_scan(s, i, f),
    decreases s.len() - i,
{
    if i < s.len() && f(s[i]) {
        lemma_scan_bounds(s, i + 1, f);
    }
}

/// Every character a scan passes over satisfies its predicate.
pub proof fn lemma_scan_run(s: Seq<char>, i: int, f: spec_fn(char) -> bool)
    requires
        0 <= i <= s.len(),
    ensures
        forall|k: int| i <= k < spec_scan(s, i, f) ==> f(#[trigger] s[k]),
        spec_scan(s, i, f) < s.len() ==> !f(s[spec_scan(s, i, f)]),
    decreases s.len() - i,
{
    if i < s.len() && f(s[i]) {
        lemma_scan_run(s, i + 1, f);
    }
}

/// The tokens of `s` from position `i` on: maximal whitespace runs,
/// maximal unquoted words, and quoted segments with their quotes
/// stripped; no token when a quote is never closed.
pub open spec fn spec_tokenize(s: Seq<char>, i: int) -> Option<Seq<TokenModel>>
    decreases s.len() - i,
    via spec_tokenize_decreases
{
    if i < 0 || i >= s.len() {
        Some(Seq::empty())
    } else if spec_is_space(s[i]) {
        let j = spec_scan(s, i, space_pred());
        match spec_tokenize(s, j) {
            None => None,
            Some(rest) => Some(
                seq![TokenModel { text: s.subrange(i, j), kind: TokenType::Whitespace }] + rest,
            ),
        }
    } else if spec_is_quote(s[i]) {
        let j = spec_scan(s, i + 1, not_char_pred(s[i]));
        if j >= s.len() {
            None
        } else {
            match spec_tokenize(s, j + 1) {
                None => None,
                Some(rest) => Some(
                    seq![
                        TokenModel { text: s.subrange(i + 1, j), kind: TokenType::QuotedString },
                    ] + rest,
                ),
            }
        }
    } else {
        let j = spec_scan(s, i, word_pred());
        match spec_tokenize(s, j) {
            None => None,
            Some(rest) => Some(
                seq![TokenModel { text: s.subrange(i, j), kind: TokenType::Word }] + rest,
            ),
        }
    }
}

#[via_fn]
proof fn spec_tokenize_decreases(s: Seq<char>, i: int) {
    if 0 <= i < s.len() {
        if spec_is_space(s[i]) {
            lemma_scan_bounds(s, i, space_pred());
            assert(space_pred()(s[i]));
        } else if spec_is_quote(s[i]) {
            lemma_scan_bounds(s, i + 1, not_char_pred(s[i]));
        } else {
            lemma_scan_bounds(s, i, word_pred());
            assert(word_pred()(s[i]));
        }
    }
}

/// The models of a token vector.
pub open spec fn spec_models(ts: Seq<Token>) -> Seq<TokenModel> {
    ts.map_values(|t: Token| TokenModel { text: t.text@, kind: t.token_type })
}

/// Matching token vectors model exactly the modeled tokens.
pub proof fn lemma_tokens_match_models(ts: Seq<Token>, ms: Seq<TokenModel>)
    requires
        tokens_match(ts, ms),
    ensures
        spec_models(ts) == ms,
{
    assert(spec_models(ts) =~= ms);
}

/// Whether the token vector carries exactly the modeled tokens.
pub open spec fn tokens_match(ts: Seq<Token>, ms: Seq<TokenModel>) -> bool {
    &&& ts.len() == ms.len()
    &&& forall|i: int|
        0 <= i < ts.len() ==> (#[trigger] ts[i]).text@ == ms[i].text && ts[i].token_type
            == ms[i].kind
}

/// Whether `c` separates tokens as whitespace.
pub(crate) fn is_space(c: char) -> (r: bool)
    ensures
        r == spec_is_space(c),
{
    c == ' ' || c == '\t'
}

/// Whether `c` opens or closes a quoted segment.
pub(crate) fn is_quote(c: char) -> (r: bool)
    ensures
        r == spec_is_quote(c),
{
    c == '\'' || c == '"'
}

fn scan_space(v: &Vec<char>, i: usize) -> (j: usize)
    requires
        i <= v@.len(),
    ensures
        j as int == spec_scan(v@, i as int, space_pred()),
        i <= j <= v@.len(),
    decreases v@.len() - i,
{
    proof {
        lemma_scan_bounds(v@, i as int, space_pred());
    }
    if i < v.len() && is_space(v[i]) {
        scan_space(v, i + 1)
    } else {
        i
    }
}

fn scan_word(v: &Vec<char>, i: usize) -> (j: usize)
    requires
        i <= v@.len(),
    ensures
        j as int == spec_scan(v@, i as int, word_pred()),
        i <= j <= v@.len(),
    decreases v@.len() - i,
{
    proof {
        lemma_scan_bounds(v@, i as int, word_pred());
    }
    if i < v.len() && !is_space(v[i]) && !is_quote(v[i]) {
        scan_word(v, i + 1)
    } else {
        i
    }
}

fn scan_not_char(v: &Vec<char>, i: usize, q: char) -> (j: usize)
    requires
        i <= v@.len(),
    ensures
        j as int == spec_scan(v@, i as int, not_char_pred(q)),
        i <= j <= v@.len(),
    decreases v@.len() - i,
{
    proof {
        lemma_scan_bounds(v@, i as int, not_char_pred(q));
    }
    if i < v.len() && v[i] != q {
        scan_not_char(v, i + 1, q)
    } else {
        i
    }
}

fn tokenize_from(v: &Vec<char>, i: usize) -> (r: Result<Vec<Token>, TokenizeError>)
    requires
        i <= v@.len(),
    ensures
        match spec_tokenize(v@, i as int) {
            Some(ms) => r is Ok && tokens_match(r->Ok_0@, ms),
            None => r == Result::<Vec<Token>, TokenizeError>::Err(TokenizeError::UnterminatedQuote),
        },
    decreases v@.len() - i,
{
    if i >= v.len() {
        return Ok(Vec::new());
    }
    let c = v[i];
    if is_space(c) {
        proof {
            lemma_scan_bounds(v@, i as int, space_pred());
            assert(space_pred()(v@[i as int]));
        }
        let j = scan_space(v, i);
        let text = text::chars_range_to_string(v, i, j);
        match tokenize_from(v, j) {
            Err(e) => Err(e),
            Ok(mut ts) => {
                ts.insert(0, Token { text, token_type: TokenType::Whitespace });
                proof {
                    let ms = spec_tokenize(v@, i as int)->0;
                    let rest = spec_tokenize(v@, j as int)->0;
                    assert(ms =~= seq![
                        TokenModel {
                            text: v@.subrange(i as int, j as int),
                            kind: TokenType::Whitespace,
                        },
                    ] + rest);
                }
                Ok(ts)
            },
        }
    } else if is_quote(c) {
        proof {
            lemma_scan_bounds(v@, i + 1 as int, not_char_pred(c));
        }
        let j = scan_not_char(v, i + 1, c);
        if j >= v.len() {
            Err(TokenizeError::UnterminatedQuote)
        } else {
            let text = text::chars_range_to_string(v, i + 1, j);
            match tokenize_from(v, j + 1) {
                Err(e) => Err(e),
                Ok(mut ts) => {
                    ts.insert(0, Token { text, token_type: TokenType::QuotedString });
                    proof {
                        let ms = spec_tokenize(v@, i as int)->0;
                        let rest = spec_tokenize(v@, j + 1 as int)->0;
                        assert(ms =~= seq![
                            TokenModel {
                                text: v@.subrange(i + 1 as int, j as int),
                                kind: TokenType::QuotedString,
                            },
                        ] + rest);
                    }
                    Ok(ts)
                },
            }
        }
    } else {
        proof {
            lemma_scan_bounds(v@, i as int, word_pred());
            assert(word_pred()(v@[i as int]));
        }
        let j = scan_word(v, i);
        let text = text::chars_range_to_string(v, i, j);
        match tokenize_from(v, j) {
            Err(e) => Err(e),
            Ok(mut ts) => {
                ts.insert(0, Token { text, token_type: TokenType::Word });
                proof {
                    let ms = spec_tokenize(v@, i as int)->0;
                    let rest = spec_tokenize(v@, j as int)->0;
                    assert(ms =~= seq![
                        TokenModel { text: v@.subrange(i as int, j as int), kind: TokenType::Word },
                    ] + rest);
                }
                Ok(ts)
            },
        }
    }
}

/// Splits a raw command line into typed tokens. Whitespace runs and
/// unquoted words become one token each; a segment delimited by a
/// single- or double-quote character becomes one token with the quotes
/// stripped. A quote that is never closed is an error.
pub fn tokenize(line: &str) -> (r: Result<Vec<Token>, TokenizeError>)
    ensures
        match spec_tokenize(line@, 0) {
            Some(ms) => r is Ok && tokens_match(r->Ok_0@, ms),
            None => r == Result::<Vec<Token>, TokenizeError>::Err(TokenizeError::UnterminatedQuote),
        },
{
    let v = text::str_to_chars(line);
    tokenize_from(&v, 0)
}

} // verus!
