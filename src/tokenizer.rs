use vstd::prelude::*;

use crate::token::{Token, TokenKind};

verus! {

/// The scanner's cursor: an offset, in characters, into the source text.
pub struct TokenizationContext {
    pub offset: usize,
}

impl Default for TokenizationContext {
    fn default() -> (r: Self)
        ensures
            r.offset == 0,
    {
        TokenizationContext { offset: 0 }
    }
}

/// Why a source text could not be split into tokens.
#[derive(Debug, PartialEq, Eq, Structural, Clone, Copy)]
pub enum TokenizeError {
    /// No scanning rule matches at the cursor, whose character is `head`.
    UnmatchedCharacter { head: char },
    /// A run of digits denotes a value above `i128::MAX`.
    NumericOverflow,
}

/// An ASCII decimal digit.
pub open spec fn is_digit(c: char) -> bool {
    '0' <= c && c <= '9'
}

/// A character with the Unicode `White_Space` property.
pub open spec fn is_white(c: char) -> bool {
    ||| '\u{9}' <= c && c <= '\u{d}'
    ||| c == ' '
    ||| c == '\u{85}'
    ||| c == '\u{a0}'
    ||| c == '\u{1680}'
    ||| '\u{2000}' <= c && c <= '\u{200a}'
    ||| c == '\u{2028}'
    ||| c == '\u{2029}'
    ||| c == '\u{202f}'
    ||| c == '\u{205f}'
    ||| c == '\u{3000}'
}

pub open spec fn digit_class() -> spec_fn(char) -> bool {
    |c: char| is_digit(c)
}

pub open spec fn white_class() -> spec_fn(char) -> bool {
    |c: char| is_white(c)
}

/// The length of the longest run of characters satisfying `p` that starts at `i`.
pub open spec fn span_len(s: Seq<char>, i: int, p: spec_fn(char) -> bool) -> nat
    decreases s.len() - i,
{
    if 0 <= i < s.len() && p(s[i]) {
        1 + span_len(s, i + 1, p)
    } else {
        0
    }
}

/// The value of a digit character.
pub open spec fn digit_value(c: char) -> int {
    (c as u32) as int - ('0' as u32) as int
}

/// The value of a sequence of decimal digits, most significant first.
pub open spec fn decimal_value(d: Seq<char>) -> int
    decreases d.len(),
{
    if d.len() == 0 {
        0
    } else {
        decimal_value(d.drop_last()) * 10 + digit_value(d.last())
    }
}

/// Scanning a number at `i`: the maximal run of digits, read in base ten.
pub open spec fn scan_number_spec(s: Seq<char>, i: int) -> (Result<Token, TokenizeError>, nat) {
    let n = span_len(s, i, digit_class());
    if n == 0 {
        (Err(TokenizeError::UnmatchedCharacter { head: s[i] }), 0)
    } else if decimal_value(s.subrange(i, i + n)) <= i128::MAX {
        (Ok(Token { kind: TokenKind::Integer(decimal_value(s.subrange(i, i + n)) as i128) }), n)
    } else {
        (Err(TokenizeError::NumericOverflow), 0)
    }
}

/// Scanning an operator at `i`: the text up to the next space (or the end)
/// must be exactly `+` or `-`.
pub open spec fn scan_symbol_spec(s: Seq<char>, i: int) -> (Result<Token, TokenizeError>, nat) {
    if (s[i] == '+' || s[i] == '-') && (i + 1 == s.len() || s[i + 1] == ' ') {
        (Ok(Token { kind: if s[i] == '+' { TokenKind::Plus } else { TokenKind::Minus } }), 1)
    } else {
        (Err(TokenizeError::UnmatchedCharacter { head: s[i] }), 0)
    }
}

/// Scanning whitespace at `i`: the maximal run of whitespace, as one blank token.
pub open spec fn scan_whitespace_spec(s: Seq<char>, i: int) -> (Result<Token, TokenizeError>, nat) {
    (Ok(Token { kind: TokenKind::Blank }), span_len(s, i, white_class()))
}

/// One scanning step at offset `i`: the token found there (or the error), and
/// how many characters it consumes.
pub open spec fn scan_spec(s: Seq<char>, i: int) -> (Result<Token, TokenizeError>, nat) {
    if i >= s.len() {
        (Ok(Token { kind: TokenKind::EndOfInput }), 0)
    } else if is_digit(s[i]) {
        scan_number_spec(s, i)
    } else if s[i] == '+' || s[i] == '-' {
        scan_symbol_spec(s, i)
    } else if is_white(s[i]) {
        scan_whitespace_spec(s, i)
    } else {
        (Err(TokenizeError::UnmatchedCharacter { head: s[i] }), 0)
    }
}

/// `ts` followed by the tokens of `r`, or the error of `r`.
pub open spec fn prefixed(ts: Seq<Token>, r: Result<Seq<Token>, TokenizeError>) -> Result<
    Seq<Token>,
    TokenizeError,
> {
    match r {
        Ok(rest) => Ok(ts + rest),
        Err(e) => Err(e),
    }
}

/// The tokens of `s` from offset `i` on: scanning steps until the end of the
/// text, blank tokens left out, closed by one end-of-input token; or the first
/// error met.
pub open spec fn lex_from(s: Seq<char>, i: nat) -> Result<Seq<Token>, TokenizeError>
    decreases s.len() - i,
    via lex_from_decreases
{
    if i >= s.len() {
        Ok(seq![Token { kind: TokenKind::EndOfInput }])
    } else {
        match scan_spec(s, i as int).0 {
            Err(e) => Err(e),
            Ok(t) => {
                let rest = lex_from(s, i + scan_spec(s, i as int).1);
                if t.kind is Blank {
                    rest
                } else {
                    prefixed(seq![t], rest)
                }
            },
        }
    }
}

#[via_fn]
proof fn lex_from_decreases(s: Seq<char>, i: nat) {
    if i < s.len() {
        lemma_scan_progress(s, i as int);
    }
}

/// The tokens of a whole source text.
pub open spec fn lex(s: Seq<char>) -> Result<Seq<Token>, TokenizeError> {
    lex_from(s, 0)
}

/// A token stream as the tokenizer returns it: no blank token, and exactly one
/// end-of-input token, at the end.
pub open spec fn is_token_stream(ts: Seq<Token>) -> bool {
    &&& ts.len() >= 1
    &&& ts.last().kind is EndOfInput
    &&& forall|k: int| 0 <= k < ts.len() - 1 ==> !(#[trigger] ts[k].kind is EndOfInput)
    &&& forall|k: int| 0 <= k < ts.len() ==> !(#[trigger] ts[k].kind is Blank)
}

proof fn lemma_span_facts(s: Seq<char>, i: int, p: spec_fn(char) -> bool)
    requires
        0 <= i <= s.len(),
    ensures
        i + span_len(s, i, p) <= s.len(),
        forall|k: int| i <= k < i + span_len(s, i, p) ==> p(#[trigger] s[k]),
        i + span_len(s, i, p) == s.len() || !p(s[i + span_len(s, i, p)]),
    decreases s.len() - i,
{
    if i < s.len() && p(s[i]) {
        lemma_span_facts(s, i + 1, p);
    }
}

proof fn lemma_span_exact(s: Seq<char>, i: int, j: int, p: spec_fn(char) -> bool)
    requires
        0 <= i <= j <= s.len(),
        forall|k: int| i <= k < j ==> p(#[trigger] s[k]),
        j == s.len() || !p(s[j]),
    ensures
        span_len(s, i, p) == j - i,
    decreases j - i,
{
    if i < j {
        lemma_span_exact(s, i + 1, j, p);
    }
}

proof fn lemma_span_at_least(s: Seq<char>, i: int, j: int, p: spec_fn(char) -> bool)
    requires
        0 <= i <= j <= s.len(),
        forall|k: int| i <= k < j ==> p(#[trigger] s[k]),
    ensures
        span_len(s, i, p) >= j - i,
    decreases j - i,
{
    if i < j {
        lemma_span_at_least(s, i + 1, j, p);
    }
}

proof fn lemma_scan_progress(s: Seq<char>, i: int)
    requires
        0 <= i < s.len(),
    ensures
        scan_spec(s, i).0 is Ok ==> scan_spec(s, i).1 >= 1,
        i + scan_spec(s, i).1 <= s.len(),
{
    if is_digit(s[i]) {
        lemma_span_at_least(s, i, i + 1, digit_class());
        lemma_span_facts(s, i, digit_class());
    } else if is_white(s[i]) {
        lemma_span_at_least(s, i, i + 1, white_class());
        lemma_span_facts(s, i, white_class());
    }
}

proof fn lemma_decimal_prefix(d: Seq<char>, k: int)
    requires
        0 <= k <= d.len(),
        forall|m: int| 0 <= m < d.len() ==> is_digit(#[trigger] d[m]),
    ensures
        0 <= decimal_value(d.subrange(0, k)) <= decimal_value(d),
    decreases d.len(),
{
    if k == d.len() {
        assert(d.subrange(0, k) =~= d);
        if d.len() > 0 {
            lemma_decimal_prefix(d.drop_last(), k - 1);
        }
    } else {
        lemma_decimal_prefix(d.drop_last(), k);
        assert(d.drop_last().subrange(0, k) =~= d.subrange(0, k));
        lemma_decimal_prefix(d.drop_last(), d.len() - 1);
        assert(d.drop_last().subrange(0, d.len() - 1) =~= d.drop_last());
    }
}

fn is_ascii_digit(c: char) -> (r: bool)
    ensures
        r == is_digit(c),
{
    '0' <= c && c <= '9'
}

fn is_whitespace(c: char) -> (r: bool)
    ensures
        r == is_white(c),
{
    ('\u{9}' <= c && c <= '\u{d}') || c == ' ' || c == '\u{85}' || c == '\u{a0}' || c
        == '\u{1680}' || ('\u{2000}' <= c && c <= '\u{200a}') || c == '\u{2028}' || c
        == '\u{2029}' || c == '\u{202f}' || c == '\u{205f}' || c == '\u{3000}'
}

/// Scans the run of whitespace at the cursor as one blank token, and returns
/// its length.
pub fn scan_whitespace(ctxt: &TokenizationContext, program: &str) -> (r: (
    Result<Token, TokenizeError>,
    usize,
))
    requires
        ctxt.offset <= program@.len(),
    ensures
        r.0 == scan_whitespace_spec(program@, ctxt.offset as int).0,
        r.1 == scan_whitespace_spec(program@, ctxt.offset as int).1,
{
    let ghost s = program@;
    let len = program.unicode_len();
    let start = ctxt.offset;
    let mut j = start;
    while j < len && is_whitespace(program.get_char(j))
        invariant
            len == s.len(),
            s == program@,
            start <= j <= len,
            forall|k: int| start <= k < j ==> is_white(#[trigger] s[k]),
        decreases len - j,
    {
        j = j + 1;
    }
    proof {
        lemma_span_exact(s, start as int, j as int, white_class());
    }
    (Ok(Token { kind: TokenKind::Blank }), j - start)
}

/// Scans an operator at the cursor. The text up to the next space, or to the
/// end, must be exactly `+` or `-`; anything else is an unmatched character.
pub fn scan_symbol(ctxt: &TokenizationContext, program: &str) -> (r: (
    Result<Token, TokenizeError>,
    usize,
))
    requires
        ctxt.offset < program@.len(),
    ensures
        r.0 == scan_symbol_spec(program@, ctxt.offset as int).0,
        r.1 == scan_symbol_spec(program@, ctxt.offset as int).1,
{
    let len = program.unicode_len();
    let i = ctxt.offset;
    let head = program.get_char(i);
    let ends = i + 1 == len || program.get_char(i + 1) == ' ';
    if head == '+' && ends {
        (Ok(Token { kind: TokenKind::Plus }), 1)
    } else if head == '-' && ends {
        (Ok(Token { kind: TokenKind::Minus }), 1)
    } else {
        (Err(TokenizeError::UnmatchedCharacter { head }), 0)
    }
}

/// Scans the run of digits at the cursor as a 128-bit integer, and returns
/// its length.
pub fn scan_number(ctxt: &TokenizationContext, program: &str) -> (r: (
    Result<Token, TokenizeError>,
    usize,
))
    requires
        ctxt.offset < program@.len(),
    ensures
        r.0 == scan_number_spec(program@, ctxt.offset as int).0,
        r.1 == scan_number_spec(program@, ctxt.offset as int).1,
{
    let ghost s = program@;
    let len = program.unicode_len();
    let start = ctxt.offset;
    let mut j = start;
    let mut value: i128 = 0;
    proof {
        lemma_span_facts(s, start as int, digit_class());
        assert(s.subrange(start as int, start as int) =~= Seq::<char>::empty());
    }
    let ghost n = span_len(s, start as int, digit_class());
    let ghost digits = s.subrange(start as int, start + n);
    while j < len && is_ascii_digit(program.get_char(j))
        invariant
            len == s.len(),
            s == program@,
            start <= j <= len,
            start == ctxt.offset,
            n == span_len(s, start as int, digit_class()),
            digits == s.subrange(start as int, start + n),
            start + n <= len,
            forall|k: int| start <= k < start + n ==> is_digit(#[trigger] s[k]),
            forall|k: int| start <= k < j ==> is_digit(#[trigger] s[k]),
            value as int == decimal_value(s.subrange(start as int, j as int)),
        decreases len - j,
    {
        let c = program.get_char(j);
        let d = (c as u32 - '0' as u32) as i128;
        proof {
            lemma_span_at_least(s, start as int, j + 1, digit_class());
            let next = s.subrange(start as int, j + 1);
            assert(next.drop_last() =~= s.subrange(start as int, j as int));
            assert(digits.subrange(0, j + 1 - start) =~= next);
            assert forall|m: int| 0 <= m < digits.len() implies is_digit(#[trigger] digits[m]) by {
                assert(digits[m] == s[start + m]);
            }
            lemma_decimal_prefix(digits, j + 1 - start);
            lemma_decimal_prefix(digits, j - start);
            assert(digits.subrange(0, j - start) =~= s.subrange(start as int, j as int));
            assert(next.last() == c);
            assert(d == digit_value(c));
            assert(decimal_value(next) == value * 10 + d);
        }
        match value.checked_mul(10) {
            Some(tens) => match tens.checked_add(d) {
                Some(v) => {
                    value = v;
                },
                None => {
                    return (Err(TokenizeError::NumericOverflow), 0);
                },
            },
            None => {
                return (Err(TokenizeError::NumericOverflow), 0);
            },
        }
        j = j + 1;
    }
    proof {
        lemma_span_exact(s, start as int, j as int, digit_class());
    }
    if j == start {
        return (Err(TokenizeError::UnmatchedCharacter { head: program.get_char(start) }), 0);
    }
    (Ok(Token { kind: TokenKind::Integer(value) }), j - start)
}

/// One scanning step at the cursor: end of input, a number, an operator, a
/// run of whitespace, or an unmatched character. Returns the token (or the
/// error) and the number of characters consumed.
pub fn scan(ctxt: &TokenizationContext, program: &str) -> (r: (Result<Token, TokenizeError>, usize))
    ensures
        r.0 == scan_spec(program@, ctxt.offset as int).0,
        r.1 == scan_spec(program@, ctxt.offset as int).1,
{
    if program.unicode_len() <= ctxt.offset {
        return (Ok(Token { kind: TokenKind::EndOfInput }), 0);
    }
    let head = program.get_char(ctxt.offset);
    if is_ascii_digit(head) {
        scan_number(ctxt, program)
    } else if head == '+' || head == '-' {
        scan_symbol(ctxt, program)
    } else if is_whitespace(head) {
        scan_whitespace(ctxt, program)
    } else {
        (Err(TokenizeError::UnmatchedCharacter { head }), 0)
    }
}

proof fn lemma_lex_from_is_stream(s: Seq<char>, i: nat)
    ensures
        lex_from(s, i) is Ok ==> is_token_stream(lex_from(s, i)->Ok_0),
    decreases s.len() - i,
{
    if i < s.len() {
        lemma_scan_progress(s, i as int);
        let step = scan_spec(s, i as int);
        if step.0 is Ok {
            lemma_lex_from_is_stream(s, i + step.1);
            let t = step.0->Ok_0;
            let rest = lex_from(s, i + step.1);
            if !(t.kind is Blank) && rest is Ok {
                let ts = seq![t] + rest->Ok_0;
                assert forall|k: int| 0 <= k < ts.len() - 1 implies !(#[trigger] ts[k].kind is EndOfInput) by {
                    if k > 0 {
                        assert(ts[k] == rest->Ok_0[k - 1]);
                    }
                }
                assert forall|k: int| 0 <= k < ts.len() implies !(#[trigger] ts[k].kind is Blank) by {
                    if k > 0 {
                        assert(ts[k] == rest->Ok_0[k - 1]);
                    }
                }
            }
        }
    }
}

/// Splits a source text into tokens.
///
/// On success the tokens are those of [`lex`]: no blank token, and one
/// end-of-input token at the end. On failure the error is the first one met.
pub fn tokenize(program: String) -> (r: Result<Vec<Token>, TokenizeError>)
    ensures
        lex(program@) == (match r {
            Ok(tokens) => Ok(tokens@),
            Err(e) => Err::<Seq<Token>, TokenizeError>(e),
        }),
        r is Ok ==> is_token_stream(r->Ok_0@),
{
    let ghost s = program@;
    let mut tokens: Vec<Token> = Vec::new();
    let mut ctxt = TokenizationContext::default();
    let len = program.unicode_len();
    proof {
        assert(Seq::<Token>::empty() + lex_from(s, 0)->Ok_0 =~= lex_from(s, 0)->Ok_0);
    }
    loop
        invariant_except_break
            lex(s) == prefixed(tokens@, lex_from(s, ctxt.offset as nat)),
        invariant
            s == program@,
            len == s.len(),
            ctxt.offset <= s.len(),
        ensures
            lex(s) == Ok::<Seq<Token>, TokenizeError>(tokens@),
        decreases s.len() - ctxt.offset,
    {
        let (t, token_length) = scan(&ctxt, program.as_str());
        proof {
            if ctxt.offset < s.len() {
                lemma_scan_progress(s, ctxt.offset as int);
            }
        }
        let ghost before = ctxt.offset as nat;
        ctxt.offset = ctxt.offset + token_length;
        let t = match t {
            Ok(t) => t,
            Err(e) => {
                return Err(e);
            },
        };
        let is_eof = t.kind == TokenKind::EndOfInput;
        if t.kind.should_ignore() {
            continue;
        }
        let ghost old_tokens = tokens@;
        tokens.push(t);
        proof {
            assert(old_tokens + seq![t] =~= tokens@);
            match lex_from(s, ctxt.offset as nat) {
                Ok(rest) => {
                    assert(old_tokens + (seq![t] + rest) =~= tokens@ + rest);
                },
                Err(_) => {},
            }
        }
        if is_eof {
            proof {
                assert(before == s.len());
                assert(old_tokens + seq![t] =~= tokens@);
            }
            break;
        }
    }
    proof {
        lemma_lex_from_is_stream(s, 0);
    }
    Ok(tokens)
}

/// Tokenizing is a function of the text alone: the same text twice gives the
/// same tokens, or the same error.
pub proof fn lemma_tokenize_deterministic(a: Seq<char>, b: Seq<char>)
    requires
        a == b,
    ensures
        lex(a) == lex(b),
{
}

} // verus!
