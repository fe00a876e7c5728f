use vstd::prelude::*;
use crate::error::ParseError;
use crate::scanner::{is_ws, is_ws_char};

verus! {

/// A list of spans `(start, end)` of the input, and the position after the list.
pub type ListScan = Result<(Seq<(usize, usize)>, int), ParseError>;

/// The spans, with the word that starts at `start` (if one is open) closed at `i`.
pub open spec fn close_word(acc: Seq<(usize, usize)>, start: Option<usize>, i: int) -> Seq<(usize, usize)> {
    match start {
        Some(a) => acc.push((a, i as usize)),
        None => acc,
    }
}

/// The column-name scanner from position `i`: `start` is the open word, if any, `expect_comma`
/// holds after a word that whitespace has closed, and `acc` holds the names found so far.
pub open spec fn scan_columns(
    s: Seq<char>,
    i: int,
    start: Option<usize>,
    expect_comma: bool,
    acc: Seq<(usize, usize)>,
) -> ListScan
    decreases s.len() - i,
{
    if !(0 <= i < s.len()) {
        Err(ParseError::UnterminatedList { offset: s.len() as usize })
    } else if s[i] == ')' {
        Ok((close_word(acc, start, i), i + 1))
    } else if is_ws(s[i]) {
        match start {
            Some(a) => scan_columns(s, i + 1, None, true, close_word(acc, start, i)),
            None => scan_columns(s, i + 1, None, expect_comma, acc),
        }
    } else if s[i] == ',' {
        scan_columns(s, i + 1, None, false, close_word(acc, start, i))
    } else if start is Some {
        scan_columns(s, i + 1, start, expect_comma, acc)
    } else if expect_comma {
        Err(ParseError::UnexpectedCharacter { found: s[i], offset: i as usize })
    } else {
        scan_columns(s, i + 1, Some(i as usize), false, acc)
    }
}

/// The column list whose opening parenthesis stands just before `i`.
pub open spec fn column_list(s: Seq<char>, i: int) -> ListScan {
    scan_columns(s, i, None, false, seq![])
}

/// First position in `[a, b)` that is not whitespace, or `b`.
pub open spec fn trim_lo(s: Seq<char>, a: int, b: int) -> int
    decreases b - a,
{
    if a < b && 0 <= a < s.len() && is_ws(s[a]) {
        trim_lo(s, a + 1, b)
    } else {
        a
    }
}

/// End of `[a, b)` with trailing whitespace removed.
pub open spec fn trim_hi(s: Seq<char>, a: int, b: int) -> int
    decreases b - a,
{
    if a < b && 0 <= b - 1 < s.len() && is_ws(s[b - 1]) {
        trim_hi(s, a, b - 1)
    } else {
        b
    }
}

/// The span of `[a, b)` without its leading and trailing whitespace.
pub open spec fn trimmed(s: Seq<char>, a: int, b: int) -> (usize, usize) {
    let lo = trim_lo(s, a, b);
    (lo as usize, trim_hi(s, lo, b) as usize)
}

/// The value scanner from position `i`: the current value began at `seg`, `quoted` holds inside
/// single quotes, `depth` counts the unquoted parentheses still open, `acc` holds the values found.
pub open spec fn scan_values(
    s: Seq<char>,
    i: int,
    seg: int,
    quoted: bool,
    depth: nat,
    acc: Seq<(usize, usize)>,
) -> ListScan
    decreases s.len() - i,
{
    if !(0 <= i < s.len()) {
        Err(ParseError::UnterminatedList { offset: s.len() as usize })
    } else if quoted && s[i] == '\\' && i + 1 < s.len() && s[i + 1] == '\'' {
        scan_values(s, i + 2, seg, quoted, depth, acc)
    } else if s[i] == '\'' {
        scan_values(s, i + 1, seg, !quoted, depth, acc)
    } else if quoted {
        scan_values(s, i + 1, seg, quoted, depth, acc)
    } else if s[i] == '(' {
        scan_values(s, i + 1, seg, quoted, depth + 1, acc)
    } else if s[i] == ')' && depth > 0 {
        scan_values(s, i + 1, seg, quoted, (depth - 1) as nat, acc)
    } else if s[i] == ')' {
        let v = trimmed(s, seg, i);
        if v.0 < v.1 {
            Ok((acc.push(v), i + 1))
        } else if acc.len() == 0 {
            Ok((acc, i + 1))
        } else {
            Err(ParseError::MissingToken { offset: i as usize })
        }
    } else if s[i] == ',' && depth == 0 {
        let v = trimmed(s, seg, i);
        if v.0 < v.1 {
            scan_values(s, i + 1, i + 1, quoted, depth, acc.push(v))
        } else {
            Err(ParseError::MissingToken { offset: i as usize })
        }
    } else {
        scan_values(s, i + 1, seg, quoted, depth, acc)
    }
}

/// The value list whose opening parenthesis stands just before `i`.
pub open spec fn value_list(s: Seq<char>, i: int) -> ListScan {
    scan_values(s, i, i, false, 0, seq![])
}

/// Each span lies within a text of length `n`.
pub open spec fn spans_within(spans: Seq<(usize, usize)>, n: int) -> bool {
    forall|k: int| 0 <= k < spans.len() ==> #[trigger] spans[k].0 <= spans[k].1 <= n
}

/// A list result in exec form, seen as a spec list result.
pub open spec fn listed(r: Result<(Vec<(usize, usize)>, usize), ParseError>) -> ListScan {
    match r {
        Ok((v, p)) => Ok((v@, p as int)),
        Err(e) => Err(e),
    }
}

/// Reads the column names up to the closing parenthesis; `i` is just after the opening one.
pub fn take_columns(s: &Vec<char>, i: usize) -> (r: Result<(Vec<(usize, usize)>, usize), ParseError>)
    requires
        i <= s.len(),
    ensures
        listed(r) == column_list(s@, i as int),
        r matches Ok((v, p)) ==> p <= s.len() && spans_within(v@, s.len() as int),
{
    let mut acc: Vec<(usize, usize)> = Vec::new();
    let mut start: Option<usize> = None;
    let mut expect_comma = false;
    let mut j = i;
    while j < s.len()
        invariant
            i <= j <= s.len(),
            start matches Some(a) ==> a < j,
            spans_within(acc@, s.len() as int),
            scan_columns(s@, j as int, start, expect_comma, acc@) == column_list(s@, i as int),
        decreases s.len() - j,
    {
        let c = s[j];
        if c == ')' {
            if let Some(a) = start {
                acc.push((a, j));
            }
            return Ok((acc, j + 1));
        } else if is_ws_char(c) {
            if let Some(a) = start {
                acc.push((a, j));
                start = None;
                expect_comma = true;
            }
        } else if c == ',' {
            if let Some(a) = start {
                acc.push((a, j));
            }
            start = None;
            expect_comma = false;
        } else if start.is_none() {
            if expect_comma {
                return Err(ParseError::UnexpectedCharacter { found: c, offset: j });
            }
            start = Some(j);
        }
        j = j + 1;
    }
    Err(ParseError::UnterminatedList { offset: s.len() })
}

/// Trims the whitespace from both ends of `[a, b)`.
pub fn trim_span(s: &Vec<char>, a: usize, b: usize) -> (r: (usize, usize))
    requires
        a <= b <= s.len(),
    ensures
        r == trimmed(s@, a as int, b as int),
        a <= r.0 <= r.1 <= b,
{
    let mut lo = a;
    while lo < b && is_ws_char(s[lo])
        invariant
            a <= lo <= b <= s.len(),
            trim_lo(s@, lo as int, b as int) == trim_lo(s@, a as int, b as int),
        decreases b - lo,
    {
        lo = lo + 1;
    }
    let mut hi = b;
    while lo < hi && is_ws_char(s[hi - 1])
        invariant
            lo <= hi <= b <= s.len(),
            trim_hi(s@, lo as int, hi as int) == trim_hi(s@, lo as int, b as int),
        decreases hi - lo,
    {
        hi = hi - 1;
    }
    (lo, hi)
}

/// Reads the values up to the closing parenthesis; `i` is just after the opening one.
pub fn take_values(s: &Vec<char>, i: usize) -> (r: Result<(Vec<(usize, usize)>, usize), ParseError>)
    requires
        i <= s.len(),
    ensures
        listed(r) == value_list(s@, i as int),
        r matches Ok((v, p)) ==> p <= s.len() && spans_within(v@, s.len() as int),
{
    let mut acc: Vec<(usize, usize)> = Vec::new();
    let mut seg = i;
    let mut quoted = false;
    let mut depth: usize = 0;
    let mut j = i;
    while j < s.len()
        invariant
            i <= seg <= j <= s.len(),
            depth <= j,
            spans_within(acc@, s.len() as int),
            scan_values(s@, j as int, seg as int, quoted, depth as nat, acc@) == value_list(s@, i as int),
        decreases s.len() - j,
    {
        let c = s[j];
        if quoted && c == '\\' && j + 1 < s.len() && s[j + 1] == '\'' {
            j = j + 2;
        } else {
            if c == '\'' {
                quoted = !quoted;
            } else if quoted {
            } else if c == '(' {
                depth = depth + 1;
            } else if c == ')' && depth > 0 {
                depth = depth - 1;
            } else if c == ')' {
                let v = trim_span(s, seg, j);
                if v.0 < v.1 {
                    acc.push(v);
                    return Ok((acc, j + 1));
                } else if acc.len() == 0 {
                    return Ok((acc, j + 1));
                } else {
                    return Err(ParseError::MissingToken { offset: j });
                }
            } else if c == ',' && depth == 0 {
                let v = trim_span(s, seg, j);
                if v.0 < v.1 {
                    acc.push(v);
                    seg = j + 1;
                } else {
                    return Err(ParseError::MissingToken { offset: j });
                }
            }
            j = j + 1;
        }
    }
    Err(ParseError::UnterminatedList { offset: s.len() })
}

} // verus!
