use vstd::prelude::*;
use vstd::string::*;
use crate::error::{Keyword, ParseError};

verus! {

/// The whitespace characters that separate tokens.
pub open spec fn is_ws(c: char) -> bool {
    c == ' ' || c == '\t' || c == '\n' || c == '\r' || c == '\u{0B}' || c == '\u{0C}'
}

/// Position of the first non-whitespace character at or after `i`.
pub open spec fn skip_ws(s: Seq<char>, i: int) -> int
    decreases s.len() - i,
{
    if 0 <= i < s.len() && is_ws(s[i]) {
        skip_ws(s, i + 1)
    } else {
        i
    }
}

pub fn is_ws_char(c: char) -> (r: bool)
    ensures
        r == is_ws(c),
{
    c == ' ' || c == '\t' || c == '\n' || c == '\r' || c == '\u{0B}' || c == '\u{0C}'
}

/// The characters of `text`, in order.
pub fn chars_of(text: &str) -> (r: Vec<char>)
    ensures
        r@ == text@,
{
    let mut out: Vec<char> = Vec::new();
    for c in it: text.chars()
        invariant
            out@ == it.seq().subrange(0, it.index() as int),
    {
        out.push(c);
    }
    out
}

/// Advances `i` past any run of whitespace.
pub fn skip_whitespace(s: &Vec<char>, i: usize) -> (r: usize)
    requires
        i <= s.len(),
    ensures
        r == skip_ws(s@, i as int),
        i <= r <= s.len(),
{
    let mut j = i;
    while j < s.len() && is_ws_char(s[j])
        invariant
            i <= j <= s.len(),
            skip_ws(s@, j as int) == skip_ws(s@, i as int),
        decreases s.len() - j,
    {
        j = j + 1;
    }
    j
}

} // verus!

verus! {

/// The lower-case spelling of a keyword.
pub open spec fn keyword_text(k: Keyword) -> Seq<char> {
    match k {
        Keyword::Insert => seq!['i', 'n', 's', 'e', 'r', 't'],
        Keyword::Into => seq!['i', 'n', 't', 'o'],
        Keyword::Values => seq!['v', 'a', 'l', 'u', 'e', 's'],
    }
}

/// `c` equals the lower-case letter or symbol `k`, ignoring ASCII case.
pub open spec fn same_ignoring_case(c: char, k: char) -> bool {
    c == k || (97 <= k as u32 <= 122 && c as u32 + 32 == k as u32)
}

/// Length of the longest prefix of `kw`, from index `k` on, that matches `s` at `i + k`.
pub open spec fn keyword_reach(s: Seq<char>, i: int, kw: Seq<char>, k: int) -> int
    decreases kw.len() - k,
{
    if 0 <= k < kw.len() && 0 <= i + k < s.len() && same_ignoring_case(s[i + k], kw[k]) {
        keyword_reach(s, i, kw, k + 1)
    } else {
        k
    }
}

/// Consuming keyword `kw` at `i`: the position after it, or why it is not there.
pub open spec fn expect_keyword(s: Seq<char>, i: int, kw: Keyword) -> Result<int, ParseError> {
    let k = keyword_reach(s, i, keyword_text(kw), 0);
    if k == keyword_text(kw).len() {
        Ok(i + k)
    } else if i + k >= s.len() {
        Err(ParseError::UnexpectedEnd { offset: (i + k) as usize })
    } else {
        Err(ParseError::KeywordMismatch { expected: kw, found: s[i + k], offset: (i + k) as usize })
    }
}

/// At least one whitespace character at `i`: the position after the whole run.
pub open spec fn expect_separator(s: Seq<char>, i: int) -> Result<int, ParseError> {
    if i >= s.len() {
        Err(ParseError::UnexpectedEnd { offset: i as usize })
    } else if !is_ws(s[i]) {
        Err(ParseError::UnexpectedCharacter { found: s[i], offset: i as usize })
    } else {
        Ok(skip_ws(s, i))
    }
}

/// A character that can stand in a bare token.
pub open spec fn is_token_char(c: char) -> bool {
    !is_ws(c) && c != '('
}

/// End of the run of token characters that starts at `i`.
pub open spec fn token_end(s: Seq<char>, i: int) -> int
    decreases s.len() - i,
{
    if 0 <= i < s.len() && is_token_char(s[i]) {
        token_end(s, i + 1)
    } else {
        i
    }
}

/// Taking a non-empty bare token at `i`: where it ends.
pub open spec fn expect_token(s: Seq<char>, i: int) -> Result<int, ParseError> {
    let e = token_end(s, i);
    if e == i {
        Err(ParseError::MissingToken { offset: i as usize })
    } else {
        Ok(e)
    }
}

/// Skipping whitespace, then consuming an opening parenthesis.
pub open spec fn expect_open(s: Seq<char>, i: int) -> Result<int, ParseError> {
    let j = skip_ws(s, i);
    if j >= s.len() {
        Err(ParseError::UnexpectedEnd { offset: j as usize })
    } else if s[j] != '(' {
        Err(ParseError::UnexpectedCharacter { found: s[j], offset: j as usize })
    } else {
        Ok(j + 1)
    }
}

/// A position result in exec form, seen as a spec position result.
pub open spec fn at(r: Result<usize, ParseError>) -> Result<int, ParseError> {
    match r {
        Ok(p) => Ok(p as int),
        Err(e) => Err(e),
    }
}

fn keyword_chars(kw: Keyword) -> (r: Vec<char>)
    ensures
        r@ == keyword_text(kw),
{
    match kw {
        Keyword::Insert => vec!['i', 'n', 's', 'e', 'r', 't'],
        Keyword::Into => vec!['i', 'n', 't', 'o'],
        Keyword::Values => vec!['v', 'a', 'l', 'u', 'e', 's'],
    }
}

fn same_ignoring_case_char(c: char, k: char) -> (r: bool)
    ensures
        r == same_ignoring_case(c, k),
{
    let cu = c as u32;
    let ku = k as u32;
    c == k || (97 <= ku && ku <= 122 && cu == ku - 32)
}

/// Consumes keyword `kw`, in any ASCII case, at `i`.
pub fn match_keyword(s: &Vec<char>, i: usize, kw: Keyword) -> (r: Result<usize, ParseError>)
    requires
        i <= s.len(),
    ensures
        at(r) == expect_keyword(s@, i as int, kw),
        r is Ok ==> r->Ok_0 <= s.len(),
{
    let text = keyword_chars(kw);
    let mut k: usize = 0;
    while k < text.len() && k < s.len() - i && same_ignoring_case_char(s[i + k], text[k])
        invariant
            i <= s.len(),
            text@ == keyword_text(kw),
            k <= text.len(),
            i + k <= s.len(),
            keyword_reach(s@, i as int, text@, k as int) == keyword_reach(s@, i as int, text@, 0),
        decreases text.len() - k,
    {
        k = k + 1;
    }
    if k == text.len() {
        Ok(i + k)
    } else if i + k >= s.len() {
        Err(ParseError::UnexpectedEnd { offset: i + k })
    } else {
        Err(ParseError::KeywordMismatch { expected: kw, found: s[i + k], offset: i + k })
    }
}

/// Requires whitespace at `i` and skips all of it.
pub fn match_separator(s: &Vec<char>, i: usize) -> (r: Result<usize, ParseError>)
    requires
        i <= s.len(),
    ensures
        at(r) == expect_separator(s@, i as int),
        r is Ok ==> r->Ok_0 <= s.len(),
{
    if i >= s.len() {
        Err(ParseError::UnexpectedEnd { offset: i })
    } else if !is_ws_char(s[i]) {
        Err(ParseError::UnexpectedCharacter { found: s[i], offset: i })
    } else {
        Ok(skip_whitespace(s, i))
    }
}

/// Takes the run of token characters at `i`, which must not be empty; returns where it ends.
pub fn take_token(s: &Vec<char>, i: usize) -> (r: Result<usize, ParseError>)
    requires
        i <= s.len(),
    ensures
        at(r) == expect_token(s@, i as int),
        r is Ok ==> i < r->Ok_0 <= s.len(),
{
    let mut j = i;
    while j < s.len() && !is_ws_char(s[j]) && s[j] != '('
        invariant
            i <= j <= s.len(),
            token_end(s@, j as int) == token_end(s@, i as int),
        decreases s.len() - j,
    {
        j = j + 1;
    }
    if j == i {
        Err(ParseError::MissingToken { offset: i })
    } else {
        Ok(j)
    }
}

/// Skips whitespace and consumes an opening parenthesis.
pub fn match_open(s: &Vec<char>, i: usize) -> (r: Result<usize, ParseError>)
    requires
        i <= s.len(),
    ensures
        at(r) == expect_open(s@, i as int),
        r is Ok ==> i < r->Ok_0 <= s.len(),
{
    let j = skip_whitespace(s, i);
    if j >= s.len() {
        Err(ParseError::UnexpectedEnd { offset: j })
    } else if s[j] != '(' {
        Err(ParseError::UnexpectedCharacter { found: s[j], offset: j })
    } else {
        Ok(j + 1)
    }
}

} // verus!
