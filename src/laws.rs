use vstd::prelude::*;
use crate::error::{Keyword, ParseError};
use crate::lists::{
    column_list, scan_columns, scan_values, trim_hi, trim_lo, trimmed, value_list,
};
use crate::scanner::{
    expect_open, expect_separator, expect_token,
    is_token_char,
    expect_keyword, is_ws, keyword_reach, keyword_text, same_ignoring_case, skip_ws, token_end,
};
use crate::statement::{after_table, parse_spec, statement_start, span_texts, InsertModel};

verus! {

/// Every character of `w` is whitespace.
pub open spec fn all_ws(w: Seq<char>) -> bool {
    forall|k: int| 0 <= k < w.len() ==> is_ws(#[trigger] w[k])
}

/// A character that needs no quoting: no whitespace, parenthesis, comma or single quote.
pub open spec fn is_plain(c: char) -> bool {
    !is_ws(c) && c != '(' && c != ')' && c != ',' && c != '\''
}

/// A non-empty word of plain characters.
pub open spec fn plain_word(x: Seq<char>) -> bool {
    x.len() > 0 && forall|k: int| 0 <= k < x.len() ==> is_plain(#[trigger] x[k])
}

/// `x` is the keyword `kw` in some mix of upper and lower case.
pub open spec fn spells(x: Seq<char>, kw: Keyword) -> bool {
    x.len() == keyword_text(kw).len() && forall|k: int|
        0 <= k < x.len() ==> same_ignoring_case(#[trigger] x[k], keyword_text(kw)[k])
}

/// `s` holds `x` from position `i` on.
pub open spec fn has_at(s: Seq<char>, i: int, x: Seq<char>) -> bool {
    0 <= i && i + x.len() <= s.len() && s.subrange(i, i + x.len()) == x
}

/// The items of a list, each with the whitespace `g` on both sides, separated by commas.
pub open spec fn padded_list(items: Seq<Seq<char>>, g: Seq<char>) -> Seq<char>
    decreases items.len(),
{
    if items.len() == 0 {
        seq![]
    } else if items.len() == 1 {
        g + items[0] + g
    } else {
        g + items[0] + g + seq![','] + padded_list(items.drop_first(), g)
    }
}

/// The keyword `kw` consumed at `i`, when `s` spells it there, ignoring case.
pub proof fn lemma_keyword_ignores_case(s: Seq<char>, i: int, kw: Keyword)
    requires
        0 <= i,
    ensures
        expect_keyword(s, i, kw) == Ok::<int, ParseError>(i + keyword_text(kw).len()) <==> (i
            + keyword_text(kw).len() <= s.len() && spells(
            s.subrange(i, i + keyword_text(kw).len()),
            kw,
        )),
{
    let kt = keyword_text(kw);
    let n = kt.len() as int;
    if i <= s.len() {
        lemma_keyword_reach(s, i, kt, 0);
    }
    if i + n <= s.len() {
        let x = s.subrange(i, i + n);
        if spells(x, kw) {
            assert forall|j: int| 0 <= j < n implies same_ignoring_case(s[i + j], #[trigger] kt[j]) by {
                assert(x[j] == s[i + j]);
            }
        }
        if forall|j: int| 0 <= j < n ==> same_ignoring_case(s[i + j], #[trigger] kt[j]) {
            assert forall|j: int| 0 <= j < n implies same_ignoring_case(#[trigger] x[j], kt[j]) by {
                assert(x[j] == s[i + j]);
            }
        }
    }
}

proof fn lemma_keyword_reach(s: Seq<char>, i: int, kt: Seq<char>, k: int)
    requires
        0 <= i,
        0 <= k <= kt.len(),
        i + k <= s.len(),
    ensures
        k <= keyword_reach(s, i, kt, k) <= kt.len(),
        keyword_reach(s, i, kt, k) == kt.len() <==> (i + kt.len() <= s.len() && forall|j: int|
            k <= j < kt.len() ==> same_ignoring_case(s[i + j], #[trigger] kt[j])),
    decreases kt.len() - k,
{
    if k < kt.len() && i + k < s.len() && same_ignoring_case(s[i + k], kt[k]) {
        lemma_keyword_reach(s, i, kt, k + 1);
    } else if k < kt.len() && i + k < s.len() {
        assert(!same_ignoring_case(s[i + k], kt[k]));
    }
}

/// Every character of `s` in `[i, j)` satisfies `p`.
pub open spec fn all_in(s: Seq<char>, i: int, j: int, p: spec_fn(char) -> bool) -> bool {
    0 <= i <= j <= s.len() && forall|k: int| i <= k < j ==> p(#[trigger] s[k])
}

proof fn lemma_at(s: Seq<char>, i: int, x: Seq<char>)
    requires
        has_at(s, i, x),
    ensures
        forall|k: int| 0 <= k < x.len() ==> s[i + k] == #[trigger] x[k],
{
    assert forall|k: int| 0 <= k < x.len() implies s[i + k] == #[trigger] x[k] by {
        assert(s.subrange(i, i + x.len())[k] == s[i + k]);
    }
}

proof fn lemma_at_all(s: Seq<char>, i: int, x: Seq<char>, p: spec_fn(char) -> bool)
    requires
        has_at(s, i, x),
        forall|k: int| 0 <= k < x.len() ==> p(#[trigger] x[k]),
    ensures
        all_in(s, i, i + x.len(), p),
{
    lemma_at(s, i, x);
    assert forall|k: int| i <= k < i + x.len() implies p(#[trigger] s[k]) by {
        assert(s[i + (k - i)] == x[k - i]);
    }
}

proof fn lemma_skip_run(s: Seq<char>, i: int, j: int)
    requires
        all_in(s, i, j, |c: char| is_ws(c)),
    ensures
        skip_ws(s, i) == skip_ws(s, j),
    decreases j - i,
{
    if i < j {
        assert(is_ws(s[i]));
        lemma_skip_run(s, i + 1, j);
    }
}

proof fn lemma_token_run(s: Seq<char>, i: int, j: int)
    requires
        all_in(s, i, j, |c: char| is_plain(c)),
    ensures
        token_end(s, i) == token_end(s, j),
    decreases j - i,
{
    if i < j {
        assert(is_plain(s[i]));
        lemma_token_run(s, i + 1, j);
    }
}

proof fn lemma_trim_lo(s: Seq<char>, a: int, m: int, b: int)
    requires
        all_in(s, a, m, |c: char| is_ws(c)),
        m < b <= s.len(),
        !is_ws(s[m]),
    ensures
        trim_lo(s, a, b) == m,
    decreases m - a,
{
    if a < m {
        assert(is_ws(s[a]));
        lemma_trim_lo(s, a + 1, m, b);
    }
}

proof fn lemma_trim_hi(s: Seq<char>, a: int, m: int, b: int)
    requires
        all_in(s, m, b, |c: char| is_ws(c)),
        0 <= a < m,
        !is_ws(s[m - 1]),
    ensures
        trim_hi(s, a, b) == m,
    decreases b - m,
{
    if m < b {
        assert(is_ws(s[b - 1]));
        lemma_trim_hi(s, a, m, b - 1);
    }
}

proof fn lemma_columns_ws(s: Seq<char>, i: int, j: int, e: bool, acc: Seq<(usize, usize)>)
    requires
        all_in(s, i, j, |c: char| is_ws(c)),
    ensures
        scan_columns(s, i, None, e, acc) == scan_columns(s, j, None, e, acc),
    decreases j - i,
{
    if i < j {
        assert(is_ws(s[i]));
        lemma_columns_ws(s, i + 1, j, e, acc);
    }
}

proof fn lemma_columns_word(s: Seq<char>, i: int, j: int, a: usize, acc: Seq<(usize, usize)>)
    requires
        all_in(s, i, j, |c: char| is_plain(c)),
    ensures
        scan_columns(s, i, Some(a), false, acc) == scan_columns(s, j, Some(a), false, acc),
    decreases j - i,
{
    if i < j {
        assert(is_plain(s[i]));
        lemma_columns_word(s, i + 1, j, a, acc);
    }
}

/// A character that the value scanner passes over outside quotes and parentheses.
pub open spec fn is_ordinary(c: char) -> bool {
    c != '(' && c != ')' && c != ',' && c != '\''
}

proof fn lemma_values_ordinary(s: Seq<char>, i: int, j: int, seg: int, acc: Seq<(usize, usize)>)
    requires
        all_in(s, i, j, |c: char| is_ordinary(c)),
    ensures
        scan_values(s, i, seg, false, 0, acc) == scan_values(s, j, seg, false, 0, acc),
    decreases j - i,
{
    if i < j {
        assert(is_ordinary(s[i]));
        lemma_values_ordinary(s, i + 1, j, seg, acc);
    }
}

proof fn lemma_push_text(s: Seq<char>, acc: Seq<(usize, usize)>, p: (usize, usize))
    ensures
        span_texts(s, acc.push(p)) == span_texts(s, acc).push(s.subrange(p.0 as int, p.1 as int)),
{
    assert(span_texts(s, acc.push(p)) =~= span_texts(s, acc).push(s.subrange(p.0 as int, p.1 as int)));
}

proof fn lemma_split(s: Seq<char>, i: int, a: Seq<char>, b: Seq<char>)
    requires
        has_at(s, i, a + b),
    ensures
        has_at(s, i, a),
        has_at(s, i + a.len(), b),
{
    lemma_at(s, i, a + b);
    assert(s.subrange(i, i + a.len()) =~= a) by {
        assert forall|k: int| 0 <= k < a.len() implies s.subrange(i, i + a.len())[k] == a[k] by {
            assert((a + b)[k] == a[k]);
        }
    }
    assert(s.subrange(i + a.len(), i + a.len() + b.len()) =~= b) by {
        assert forall|k: int| 0 <= k < b.len() implies s.subrange(i + a.len(), i + a.len() + b.len())[k] == b[k] by {
            assert((a + b)[a.len() + k] == b[k]);
        }
    }
}

/// The pieces of one padded item: whitespace, the item, whitespace.
proof fn lemma_item(s: Seq<char>, i: int, g: Seq<char>, x: Seq<char>)
    requires
        has_at(s, i, g + x + g),
        all_ws(g),
        plain_word(x),
    ensures
        all_in(s, i, i + g.len(), |c: char| is_ws(c)),
        all_in(s, i + g.len(), i + g.len() + x.len(), |c: char| is_plain(c)),
        all_in(s, i + g.len() + x.len(), i + 2 * g.len() + x.len(), |c: char| is_ws(c)),
        all_in(s, i, i + 2 * g.len() + x.len(), |c: char| is_ordinary(c)),
        s.subrange(i + g.len(), i + g.len() + x.len()) == x,
{
    lemma_split(s, i, g + x, g);
    lemma_split(s, i, g, x);
    lemma_at_all(s, i, g, |c: char| is_ws(c));
    lemma_at_all(s, i + g.len(), x, |c: char| is_plain(c));
    lemma_at_all(s, i + g.len() + x.len(), g, |c: char| is_ws(c));
    assert forall|k: int| i <= k < i + 2 * g.len() + x.len() implies is_ordinary(#[trigger] s[k]) by {
        if k < i + g.len() {
            assert(is_ws(s[k]));
        } else if k < i + g.len() + x.len() {
            assert(is_plain(s[k]));
        } else {
            assert(is_ws(s[k]));
        }
    }
}

proof fn lemma_column_items(
    s: Seq<char>,
    i: int,
    items: Seq<Seq<char>>,
    g: Seq<char>,
    acc: Seq<(usize, usize)>,
)
    requires
        has_at(s, i, padded_list(items, g)),
        i + padded_list(items, g).len() < s.len() <= usize::MAX,
        s[i + padded_list(items, g).len()] == ')',
        all_ws(g),
        forall|k: int| 0 <= k < items.len() ==> plain_word(#[trigger] items[k]),
    ensures
        scan_columns(s, i, None, false, acc) is Ok,
        scan_columns(s, i, None, false, acc)->Ok_0.1 == i + padded_list(items, g).len() + 1,
        span_texts(s, scan_columns(s, i, None, false, acc)->Ok_0.0) == span_texts(s, acc) + items,
    decreases items.len(),
{
    let pl = padded_list(items, g);
    if items.len() == 0 {
        assert(span_texts(s, acc) + items =~= span_texts(s, acc));
    } else {
        let x = items[0];
        let rest = items.drop_first();
        assert(plain_word(x));
        let j = i + g.len();
        let k = j + x.len();
        let m = k + g.len();
        if items.len() == 1 {
            lemma_item(s, i, g, x);
        } else {
            lemma_split(s, i, g + x + g + seq![','], padded_list(rest, g));
            lemma_split(s, i, g + x + g, seq![',']);
            lemma_at(s, m, seq![',']);
            assert(s[m + 0] == seq![','][0]);
            lemma_item(s, i, g, x);
        }
        lemma_columns_ws(s, i, j, false, acc);
        assert(is_plain(s[j]));
        lemma_columns_word(s, j + 1, k, j as usize, acc);
        let acc1 = acc.push((j as usize, k as usize));
        if g.len() > 0 {
            assert(is_ws(s[k]));
            lemma_columns_ws(s, k + 1, m, true, acc1);
        }
        lemma_push_text(s, acc, (j as usize, k as usize));
        if items.len() == 1 {
            assert(s[m] == ')');
            assert(span_texts(s, acc1) =~= span_texts(s, acc) + items);
        } else {
            assert(s[m] == ',');
            assert forall|q: int| 0 <= q < rest.len() implies plain_word(#[trigger] rest[q]) by {
                assert(rest[q] == items[q + 1]);
            }
            lemma_column_items(s, m + 1, rest, g, acc1);
            assert(span_texts(s, acc1) + rest =~= span_texts(s, acc) + items);
        }
    }
}

proof fn lemma_value_items(
    s: Seq<char>,
    i: int,
    items: Seq<Seq<char>>,
    g: Seq<char>,
    acc: Seq<(usize, usize)>,
)
    requires
        has_at(s, i, padded_list(items, g)),
        i + padded_list(items, g).len() < s.len() <= usize::MAX,
        s[i + padded_list(items, g).len()] == ')',
        all_ws(g),
        forall|k: int| 0 <= k < items.len() ==> plain_word(#[trigger] items[k]),
        items.len() == 0 ==> acc.len() == 0,
    ensures
        scan_values(s, i, i, false, 0, acc) is Ok,
        scan_values(s, i, i, false, 0, acc)->Ok_0.1 == i + padded_list(items, g).len() + 1,
        span_texts(s, scan_values(s, i, i, false, 0, acc)->Ok_0.0) == span_texts(s, acc) + items,
    decreases items.len(),
{
    if items.len() == 0 {
        assert(span_texts(s, acc) + items =~= span_texts(s, acc));
    } else {
        let x = items[0];
        let rest = items.drop_first();
        assert(plain_word(x));
        let j = i + g.len();
        let k = j + x.len();
        let m = k + g.len();
        if items.len() == 1 {
            lemma_item(s, i, g, x);
        } else {
            lemma_split(s, i, g + x + g + seq![','], padded_list(rest, g));
            lemma_split(s, i, g + x + g, seq![',']);
            lemma_at(s, m, seq![',']);
            assert(s[m + 0] == seq![','][0]);
            lemma_item(s, i, g, x);
        }
        lemma_values_ordinary(s, i, m, i, acc);
        assert(is_plain(s[j]));
        assert(is_plain(s[k - 1]));
        lemma_trim_lo(s, i, j, m);
        lemma_trim_hi(s, j, k, m);
        assert(trimmed(s, i, m) == (j as usize, k as usize));
        let acc1 = acc.push((j as usize, k as usize));
        lemma_push_text(s, acc, (j as usize, k as usize));
        if items.len() == 1 {
            assert(s[m] == ')');
            assert(span_texts(s, acc1) =~= span_texts(s, acc) + items);
        } else {
            assert(s[m] == ',');
            assert forall|q: int| 0 <= q < rest.len() implies plain_word(#[trigger] rest[q]) by {
                assert(rest[q] == items[q + 1]);
            }
            lemma_value_items(s, m + 1, rest, g, acc1);
            assert(span_texts(s, acc1) + rest =~= span_texts(s, acc) + items);
        }
    }
}

/// The alias with the whitespace `w` before it, or nothing.
pub open spec fn alias_part(w: Seq<char>, alias: Option<Seq<char>>) -> Seq<char> {
    match alias {
        Some(a) => w + a,
        None => seq![],
    }
}

/// The whitespace of a statement layout, one run for each place where whitespace may stand.
pub ghost struct Spacing {
    pub after_insert: Seq<char>,
    pub after_into: Seq<char>,
    pub before_alias: Seq<char>,
    pub before_columns: Seq<char>,
    pub column_pad: Seq<char>,
    pub before_values: Seq<char>,
    pub before_open: Seq<char>,
    pub value_pad: Seq<char>,
}

/// Each run is whitespace, and the three runs that separate bare words are not empty.
pub open spec fn spacing_ok(sp: Spacing) -> bool {
    &&& sp.after_insert.len() > 0 && all_ws(sp.after_insert)
    &&& sp.after_into.len() > 0 && all_ws(sp.after_into)
    &&& sp.before_alias.len() > 0 && all_ws(sp.before_alias)
    &&& all_ws(sp.before_columns)
    &&& all_ws(sp.column_pad)
    &&& all_ws(sp.before_values)
    &&& all_ws(sp.before_open)
    &&& all_ws(sp.value_pad)
}

/// An `INSERT` statement laid out with the keyword spellings `ki`, `kn`, `kv` and the whitespace
/// runs of `sp`; each list item has its list's pad on both sides.
pub open spec fn statement_text(
    ki: Seq<char>,
    kn: Seq<char>,
    kv: Seq<char>,
    sp: Spacing,
    t: Seq<char>,
    alias: Option<Seq<char>>,
    cols: Seq<Seq<char>>,
    vals: Seq<Seq<char>>,
) -> Seq<char> {
    ki + sp.after_insert + kn + sp.after_into + t + alias_part(sp.before_alias, alias)
        + sp.before_columns + seq!['('] + padded_list(cols, sp.column_pad) + seq![')']
        + sp.before_values + kv + sp.before_open + seq!['('] + padded_list(vals, sp.value_pad)
        + seq![')']
}

proof fn lemma_letter(c: char, k: char)
    requires
        same_ignoring_case(c, k),
        97 <= k as u32 <= 122,
    ensures
        !is_ws(c),
        c != '(',
{
}

proof fn lemma_keyword_at(s: Seq<char>, i: int, x: Seq<char>, kw: Keyword)
    requires
        has_at(s, i, x),
        spells(x, kw),
    ensures
        expect_keyword(s, i, kw) == Ok::<int, ParseError>(i + x.len()),
        !is_ws(s[i]),
        !is_ws(s[i + x.len() - 1]),
{
    lemma_keyword_ignores_case(s, i, kw);
    lemma_at(s, i, x);
    let kt = keyword_text(kw);
    assert(97 <= kt[0] as u32 <= 122 && 97 <= kt[kt.len() - 1] as u32 <= 122) by {
        reveal_with_fuel(keyword_text, 1);
    }
    lemma_letter(x[0], kt[0]);
    lemma_letter(x[x.len() - 1], kt[kt.len() - 1]);
}

proof fn lemma_parse_steps(
    s: Seq<char>,
    p1: int,
    p2: int,
    p3: int,
    t0: int,
    t1: int,
    al: Option<(usize, usize)>,
    c0: int,
    cs: Seq<(usize, usize)>,
    c1: int,
    v0: int,
    v1: int,
    vs: Seq<(usize, usize)>,
    e: int,
)
    requires
        expect_keyword(s, statement_start(s), Keyword::Insert) == Ok::<int, ParseError>(p1),
        expect_separator(s, p1) == Ok::<int, ParseError>(p2),
        expect_keyword(s, p2, Keyword::Into) == Ok::<int, ParseError>(p3),
        expect_separator(s, p3) == Ok::<int, ParseError>(t0),
        expect_token(s, t0) == Ok::<int, ParseError>(t1),
        after_table(s, t1) == Ok::<(Option<(usize, usize)>, int), ParseError>((al, c0)),
        column_list(s, c0) == Ok::<(Seq<(usize, usize)>, int), ParseError>((cs, c1)),
        expect_keyword(s, skip_ws(s, c1), Keyword::Values) == Ok::<int, ParseError>(v0),
        expect_open(s, v0) == Ok::<int, ParseError>(v1),
        value_list(s, v1) == Ok::<(Seq<(usize, usize)>, int), ParseError>((vs, e)),
        cs.len() == vs.len(),
    ensures
        parse_spec(s) == Ok::<InsertModel, ParseError>(
            InsertModel {
                table: s.subrange(t0, t1),
                alias: match al {
                    Some(a) => Some(s.subrange(a.0 as int, a.1 as int)),
                    None => None,
                },
                columns: span_texts(s, cs),
                values: span_texts(s, vs),
            },
        ),
{
}

proof fn lemma_layout(
    ki: Seq<char>,
    kn: Seq<char>,
    kv: Seq<char>,
    sp: Spacing,
    t: Seq<char>,
    alias: Option<Seq<char>>,
    cols: Seq<Seq<char>>,
    vals: Seq<Seq<char>>,
)
    ensures
        ({
            let s = statement_text(ki, kn, kv, sp, t, alias, cols, vals);
            let o1 = ki.len() as int;
            let o2 = o1 + sp.after_insert.len();
            let o3 = o2 + kn.len();
            let o4 = o3 + sp.after_into.len();
            let o5 = o4 + t.len();
            let o6 = o5 + alias_part(sp.before_alias, alias).len();
            let o7 = o6 + sp.before_columns.len();
            let o9 = o7 + 1 + padded_list(cols, sp.column_pad).len();
            let o11 = o9 + 1 + sp.before_values.len();
            let o12 = o11 + kv.len();
            let o13 = o12 + sp.before_open.len();
            let o15 = o13 + 1 + padded_list(vals, sp.value_pad).len();
            &&& s.len() == o15 + 1
            &&& has_at(s, 0, ki)
            &&& has_at(s, o1, sp.after_insert)
            &&& has_at(s, o2, kn)
            &&& has_at(s, o3, sp.after_into)
            &&& has_at(s, o4, t)
            &&& has_at(s, o5, alias_part(sp.before_alias, alias))
            &&& has_at(s, o6, sp.before_columns)
            &&& s[o7] == '('
            &&& has_at(s, o7 + 1, padded_list(cols, sp.column_pad))
            &&& s[o9] == ')'
            &&& has_at(s, o9 + 1, sp.before_values)
            &&& has_at(s, o11, kv)
            &&& has_at(s, o12, sp.before_open)
            &&& s[o13] == '('
            &&& has_at(s, o13 + 1, padded_list(vals, sp.value_pad))
            &&& s[o15] == ')'
        }),
{
    let s = statement_text(ki, kn, kv, sp, t, alias, cols, vals);
    let ap = alias_part(sp.before_alias, alias);
    let plc = padded_list(cols, sp.column_pad);
    let plv = padded_list(vals, sp.value_pad);
    let p1 = ki;
    let p2 = p1 + sp.after_insert;
    let p3 = p2 + kn;
    let p4 = p3 + sp.after_into;
    let p5 = p4 + t;
    let p6 = p5 + ap;
    let p7 = p6 + sp.before_columns;
    let p8 = p7 + seq!['('];
    let p9 = p8 + plc;
    let p10 = p9 + seq![')'];
    let p11 = p10 + sp.before_values;
    let p12 = p11 + kv;
    let p13 = p12 + sp.before_open;
    let p14 = p13 + seq!['('];
    let p15 = p14 + plv;
    assert(s == p15 + seq![')']);
    assert(has_at(s, 0, s)) by {
        assert(s.subrange(0, s.len() as int) =~= s);
    }
    lemma_split(s, 0, p15, seq![')']);
    lemma_split(s, 0, p14, plv);
    lemma_split(s, 0, p13, seq!['(']);
    lemma_split(s, 0, p12, sp.before_open);
    lemma_split(s, 0, p11, kv);
    lemma_split(s, 0, p10, sp.before_values);
    lemma_split(s, 0, p9, seq![')']);
    lemma_split(s, 0, p8, plc);
    lemma_split(s, 0, p7, seq!['(']);
    lemma_split(s, 0, p6, sp.before_columns);
    lemma_split(s, 0, p5, ap);
    lemma_split(s, 0, p4, t);
    lemma_split(s, 0, p3, sp.after_into);
    lemma_split(s, 0, p2, kn);
    lemma_split(s, 0, p1, sp.after_insert);
    let o7 = p7.len() as int;
    let o9 = p9.len() as int;
    let o13 = p13.len() as int;
    let o15 = p15.len() as int;
    lemma_at(s, o7, seq!['(']);
    assert(s[o7 + 0] == seq!['('][0]);
    lemma_at(s, o9, seq![')']);
    assert(s[o9 + 0] == seq![')'][0]);
    lemma_at(s, o13, seq!['(']);
    assert(s[o13 + 0] == seq!['('][0]);
    lemma_at(s, o15, seq![')']);
    assert(s[o15 + 0] == seq![')'][0]);
}

proof fn lemma_head(
    s: Seq<char>,
    ki: Seq<char>,
    kn: Seq<char>,
    w1: Seq<char>,
    w2: Seq<char>,
    wa: Seq<char>,
    g: Seq<char>,
    t: Seq<char>,
    alias: Option<Seq<char>>,
    o5: int,
    o6: int,
    o7: int,
)
    requires
        spells(ki, Keyword::Insert),
        spells(kn, Keyword::Into),
        w1.len() > 0,
        all_ws(w1),
        w2.len() > 0,
        all_ws(w2),
        wa.len() > 0,
        all_ws(wa),
        all_ws(g),
        plain_word(t),
        alias matches Some(a) ==> plain_word(a),
        s.len() <= usize::MAX,
        o5 == ki.len() + w1.len() + kn.len() + w2.len() + t.len(),
        o6 == o5 + alias_part(wa, alias).len(),
        o7 == o6 + g.len(),
        has_at(s, 0, ki),
        has_at(s, ki.len() as int, w1),
        has_at(s, ki.len() + w1.len() as int, kn),
        has_at(s, ki.len() + w1.len() + kn.len() as int, w2),
        has_at(s, o5 - t.len(), t),
        has_at(s, o5, alias_part(wa, alias)),
        has_at(s, o6, g),
        o7 < s.len(),
        s[o7] == '(',
    ensures
        ({
            let o1 = ki.len() as int;
            let o2 = o1 + w1.len();
            let o3 = o2 + kn.len();
            let o4 = o3 + w2.len();
            let al: Option<(usize, usize)> = match alias {
                Some(a) => Some(((o5 + wa.len()) as usize, o6 as usize)),
                None => None,
            };
            &&& expect_keyword(s, statement_start(s), Keyword::Insert) == Ok::<int, ParseError>(o1)
            &&& expect_separator(s, o1) == Ok::<int, ParseError>(o2)
            &&& expect_keyword(s, o2, Keyword::Into) == Ok::<int, ParseError>(o3)
            &&& expect_separator(s, o3) == Ok::<int, ParseError>(o4)
            &&& expect_token(s, o4) == Ok::<int, ParseError>(o5)
            &&& after_table(s, o5) == Ok::<(Option<(usize, usize)>, int), ParseError>((al, o7 + 1))
            &&& s.subrange(o4, o5) == t
            &&& (alias matches Some(a) ==> s.subrange(o5 + wa.len(), o6) == a)
        }),
{
    let o1 = ki.len() as int;
    let o2 = o1 + w1.len();
    let o3 = o2 + kn.len();
    let o4 = o3 + w2.len();
    lemma_keyword_at(s, 0, ki, Keyword::Insert);
    assert(skip_ws(s, 0) == 0);
    lemma_at(s, 0, ki);
    lemma_letter(ki[0], keyword_text(Keyword::Insert)[0]);
    assert(statement_start(s) == 0);
    lemma_at_all(s, o1, w1, |c: char| is_ws(c));
    lemma_skip_run(s, o1, o2);
    lemma_keyword_at(s, o2, kn, Keyword::Into);
    assert(skip_ws(s, o2) == o2);
    lemma_at_all(s, o3, w2, |c: char| is_ws(c));
    lemma_skip_run(s, o3, o4);
    lemma_at_all(s, o4, t, |c: char| is_plain(c));
    assert(is_plain(s[o4]));
    assert(skip_ws(s, o4) == o4);
    lemma_token_run(s, o4, o5);
    lemma_at_all(s, o6, g, |c: char| is_ws(c));
    assert(!is_token_char(s[o5])) by {
        if alias is Some {
            lemma_split(s, o5, wa, alias->Some_0);
            lemma_at(s, o5, wa);
            assert(is_ws(wa[0]));
        } else if g.len() > 0 {
            assert(is_ws(s[o6]));
        }
    }
    assert(token_end(s, o5) == o5);
    assert(token_end(s, o4) == o5);
    lemma_skip_run(s, o6, o7);
    assert(skip_ws(s, o7) == o7);
    match alias {
        Some(a) => {
            let q = o5 + wa.len();
            lemma_split(s, o5, wa, a);
            lemma_at_all(s, o5, wa, |c: char| is_ws(c));
            lemma_skip_run(s, o5, q);
            lemma_at_all(s, q, a, |c: char| is_plain(c));
            assert(is_plain(s[q]));
            assert(skip_ws(s, o5) == q);
            lemma_token_run(s, q, o6);
            assert(!is_token_char(s[o6])) by {
                if g.len() > 0 {
                    assert(is_ws(s[o6]));
                }
            }
            assert(token_end(s, q) == o6);
        },
        None => {
            assert(skip_ws(s, o5) == o7);
        },
    }
}

proof fn lemma_tail(
    s: Seq<char>,
    kv: Seq<char>,
    gc: Seq<char>,
    gb: Seq<char>,
    go: Seq<char>,
    gv: Seq<char>,
    cols: Seq<Seq<char>>,
    vals: Seq<Seq<char>>,
    o7: int,
    o9: int,
    o11: int,
    o13: int,
    o15: int,
)
    requires
        spells(kv, Keyword::Values),
        all_ws(gc),
        all_ws(gb),
        all_ws(go),
        all_ws(gv),
        forall|k: int| 0 <= k < cols.len() ==> plain_word(#[trigger] cols[k]),
        forall|k: int| 0 <= k < vals.len() ==> plain_word(#[trigger] vals[k]),
        s.len() <= usize::MAX,
        0 <= o7,
        o9 == o7 + 1 + padded_list(cols, gc).len(),
        o11 == o9 + 1 + gb.len(),
        o13 == o11 + kv.len() + go.len(),
        o15 == o13 + 1 + padded_list(vals, gv).len(),
        o15 < s.len(),
        has_at(s, o7 + 1, padded_list(cols, gc)),
        s[o9] == ')',
        has_at(s, o9 + 1, gb),
        has_at(s, o11, kv),
        has_at(s, o11 + kv.len(), go),
        s[o13] == '(',
        has_at(s, o13 + 1, padded_list(vals, gv)),
        s[o15] == ')',
    ensures
        column_list(s, o7 + 1) is Ok,
        column_list(s, o7 + 1)->Ok_0.1 == o9 + 1,
        span_texts(s, column_list(s, o7 + 1)->Ok_0.0) == cols,
        expect_keyword(s, skip_ws(s, o9 + 1), Keyword::Values) == Ok::<int, ParseError>(o11 + kv.len()),
        expect_open(s, o11 + kv.len()) == Ok::<int, ParseError>(o13 + 1),
        value_list(s, o13 + 1) is Ok,
        span_texts(s, value_list(s, o13 + 1)->Ok_0.0) == vals,
{
    lemma_column_items(s, o7 + 1, cols, gc, seq![]);
    assert(span_texts(s, seq![]) + cols =~= cols);
    let o12 = o11 + kv.len();
    lemma_at_all(s, o9 + 1, gb, |c: char| is_ws(c));
    lemma_skip_run(s, o9 + 1, o11);
    lemma_keyword_at(s, o11, kv, Keyword::Values);
    assert(skip_ws(s, o11) == o11);
    lemma_at_all(s, o12, go, |c: char| is_ws(c));
    lemma_skip_run(s, o12, o13);
    assert(skip_ws(s, o13) == o13);
    lemma_value_items(s, o13 + 1, vals, gv, seq![]);
    assert(span_texts(s, seq![]) + vals =~= vals);
}

/// A statement built from keywords in any case, whitespace runs of any length (at least one
/// character where a separator is required), a table name, an optional alias, and equally many
/// plain column names and values parses to exactly those parts, in order.
#[verifier::rlimit(100)]
pub proof fn lemma_statement_parses(
    ki: Seq<char>,
    kn: Seq<char>,
    kv: Seq<char>,
    sp: Spacing,
    t: Seq<char>,
    alias: Option<Seq<char>>,
    cols: Seq<Seq<char>>,
    vals: Seq<Seq<char>>,
)
    requires
        spells(ki, Keyword::Insert),
        spells(kn, Keyword::Into),
        spells(kv, Keyword::Values),
        spacing_ok(sp),
        plain_word(t),
        alias matches Some(a) ==> plain_word(a),
        forall|k: int| 0 <= k < cols.len() ==> plain_word(#[trigger] cols[k]),
        forall|k: int| 0 <= k < vals.len() ==> plain_word(#[trigger] vals[k]),
        cols.len() == vals.len(),
        statement_text(ki, kn, kv, sp, t, alias, cols, vals).len() <= usize::MAX,
    ensures
        parse_spec(statement_text(ki, kn, kv, sp, t, alias, cols, vals)) == Ok::<
            InsertModel,
            ParseError,
        >(InsertModel { table: t, alias: alias, columns: cols, values: vals }),
{
    let s = statement_text(ki, kn, kv, sp, t, alias, cols, vals);
    let o1 = ki.len() as int;
    let o2 = o1 + sp.after_insert.len();
    let o3 = o2 + kn.len();
    let o4 = o3 + sp.after_into.len();
    let o5 = o4 + t.len();
    let o6 = o5 + alias_part(sp.before_alias, alias).len();
    let o7 = o6 + sp.before_columns.len();
    let o9 = o7 + 1 + padded_list(cols, sp.column_pad).len();
    let o11 = o9 + 1 + sp.before_values.len();
    let o12 = o11 + kv.len();
    let o13 = o12 + sp.before_open.len();
    let o15 = o13 + 1 + padded_list(vals, sp.value_pad).len();
    lemma_layout(ki, kn, kv, sp, t, alias, cols, vals);
    lemma_head(
        s,
        ki,
        kn,
        sp.after_insert,
        sp.after_into,
        sp.before_alias,
        sp.before_columns,
        t,
        alias,
        o5,
        o6,
        o7,
    );
    lemma_tail(
        s,
        kv,
        sp.column_pad,
        sp.before_values,
        sp.before_open,
        sp.value_pad,
        cols,
        vals,
        o7,
        o9,
        o11,
        o13,
        o15,
    );
    let cr = column_list(s, o7 + 1)->Ok_0;
    let vr = value_list(s, o13 + 1)->Ok_0;
    let al: Option<(usize, usize)> = match alias {
        Some(a) => Some(((o5 + sp.before_alias.len()) as usize, o6 as usize)),
        None => None,
    };
    assert(cr.0.len() == vr.0.len()) by {
        assert(span_texts(s, cr.0).len() == cr.0.len());
        assert(span_texts(s, vr.0).len() == vr.0.len());
    }
    lemma_parse_steps(s, o1, o2, o3, o4, o5, al, o7 + 1, cr.0, cr.1, o12, o13 + 1, vr.0, vr.1);
    let m = InsertModel {
        table: s.subrange(o4, o5),
        alias: match al {
            Some(a) => Some(s.subrange(a.0 as int, a.1 as int)),
            None => None,
        },
        columns: span_texts(s, cr.0),
        values: span_texts(s, vr.0),
    };
    assert(m.alias == alias);
    assert(m == InsertModel { table: t, alias: alias, columns: cols, values: vals });
}

/// A statement whose column and value lists are both empty, `()`, parses to empty lists.
pub proof fn lemma_empty_lists(
    ki: Seq<char>,
    kn: Seq<char>,
    kv: Seq<char>,
    sp: Spacing,
    t: Seq<char>,
    alias: Option<Seq<char>>,
)
    requires
        spells(ki, Keyword::Insert),
        spells(kn, Keyword::Into),
        spells(kv, Keyword::Values),
        spacing_ok(sp),
        plain_word(t),
        alias matches Some(a) ==> plain_word(a),
        statement_text(ki, kn, kv, sp, t, alias, seq![], seq![]).len() <= usize::MAX,
    ensures
        parse_spec(statement_text(ki, kn, kv, sp, t, alias, seq![], seq![])) matches Ok(m)
            && m.columns.len() == 0 && m.values.len() == 0,
{
    lemma_statement_parses(ki, kn, kv, sp, t, alias, seq![], seq![]);
}

/// Within `[i, j)` of `s`, a single quote stands only right after a backslash, and a
/// backslash only right before a single quote: each quote in the region is escaped.
pub open spec fn escaped_region(s: Seq<char>, i: int, j: int) -> bool {
    &&& 0 <= i <= j <= s.len()
    &&& forall|k: int| i <= k < j && #[trigger] s[k] == '\'' ==> i < k && s[k - 1] == '\\'
    &&& forall|k: int| i <= k < j && #[trigger] s[k] == '\\' ==> k + 1 < j && s[k + 1] == '\''
}

/// The text of a quoted value whose body `b` escapes each of its quotes with a backslash.
pub open spec fn escaped_body(b: Seq<char>) -> bool {
    &&& forall|k: int| 0 <= k < b.len() && #[trigger] b[k] == '\'' ==> 0 < k && b[k - 1] == '\\'
    &&& forall|k: int| 0 <= k < b.len() && #[trigger] b[k] == '\\' ==> k + 1 < b.len() && b[k + 1] == '\''
}

proof fn lemma_values_quoted(s: Seq<char>, i: int, j: int, seg: int, acc: Seq<(usize, usize)>)
    requires
        escaped_region(s, i, j),
    ensures
        scan_values(s, i, seg, true, 0, acc) == scan_values(s, j, seg, true, 0, acc),
    decreases j - i,
{
    if i < j {
        if s[i] == '\\' {
            assert(s[i + 1] == '\'');
            assert(escaped_region(s, i + 2, j)) by {
                assert forall|k: int| i + 2 <= k < j && #[trigger] s[k] == '\'' implies i + 2 < k
                    && s[k - 1] == '\\' by {
                    assert(s[k - 1] == '\\');
                }
            }
            lemma_values_quoted(s, i + 2, j, seg, acc);
        } else {
            assert(s[i] != '\'');
            assert(escaped_region(s, i + 1, j)) by {
                assert forall|k: int| i + 1 <= k < j && #[trigger] s[k] == '\'' implies i + 1 < k
                    && s[k - 1] == '\\' by {
                    assert(s[k - 1] == '\\');
                }
            }
            lemma_values_quoted(s, i + 1, j, seg, acc);
        }
    }
}

/// A value list that holds one quoted value, whose body may hold commas, parentheses and
/// escaped quotes, yields that one value, quotes and escapes included.
pub proof fn lemma_quoted_value(s: Seq<char>, i: int, b: Seq<char>)
    requires
        has_at(s, i, seq!['\''] + b + seq!['\'', ')']),
        escaped_body(b),
        s.len() <= usize::MAX,
    ensures
        value_list(s, i) is Ok,
        span_texts(s, value_list(s, i)->Ok_0.0) == seq![seq!['\''] + b + seq!['\'']],
        value_list(s, i)->Ok_0.1 == i + b.len() + 3,
{
    let e = i + b.len() + 2;
    lemma_split(s, i, seq!['\''] + b, seq!['\'', ')']);
    lemma_split(s, i, seq!['\''], b);
    lemma_at(s, i, seq!['\'']);
    assert(s[i + 0] == seq!['\''][0]);
    lemma_at(s, i + 1 + b.len(), seq!['\'', ')']);
    assert(s[e - 1 + 0] == seq!['\'', ')'][0]);
    assert(s[e - 1 + 1] == seq!['\'', ')'][1]);
    lemma_at(s, i + 1, b);
    assert(escaped_region(s, i + 1, e - 1)) by {
        assert forall|k: int| i + 1 <= k < e - 1 && #[trigger] s[k] == '\'' implies i + 1 < k
            && s[k - 1] == '\\' by {
            assert(s[(i + 1) + (k - i - 1)] == b[k - i - 1]);
            assert(s[(i + 1) + (k - i - 2)] == b[k - i - 2]);
        }
        assert forall|k: int| i + 1 <= k < e - 1 && #[trigger] s[k] == '\\' implies k + 1 < e - 1
            && s[k + 1] == '\'' by {
            assert(s[(i + 1) + (k - i - 1)] == b[k - i - 1]);
            assert(s[(i + 1) + (k - i)] == b[k - i]);
        }
    }
    lemma_values_quoted(s, i + 1, e - 1, i, seq![]);
    assert(trim_lo(s, i, e) == i);
    assert(trim_hi(s, i, e) == e);
    let none: Seq<(usize, usize)> = seq![];
    assert(scan_values(s, i, i, false, 0, none) == scan_values(s, i + 1, i, true, 0, none));
    assert(scan_values(s, e - 1, i, true, 0, none) == scan_values(s, e, i, false, 0, none));
    assert(scan_values(s, e, i, false, 0, none) == Ok::<(Seq<(usize, usize)>, int), ParseError>(
        (none.push((i as usize, e as usize)), e + 1)));
    assert(none.push((i as usize, e as usize)) =~= seq![(i as usize, e as usize)]);
    let whole = s.subrange(i, e);
    assert(whole =~= seq!['\''] + b + seq!['\'']) by {
        assert(s.subrange(i, i + (seq!['\''] + b).len()) == seq!['\''] + b);
        assert forall|k: int| 0 <= k < e - i implies whole[k] == (seq!['\''] + b + seq!['\''])[k] by {
            if k < e - i - 1 {
                assert(whole[k] == s.subrange(i, i + (seq!['\''] + b).len())[k]);
            }
        }
    }
    assert(span_texts(s, seq![(i as usize, e as usize)]) =~= seq![whole]);
}

/// A successful parse pairs each column with a value.
pub proof fn lemma_arity(s: Seq<char>)
    ensures
        parse_spec(s) matches Ok(m) ==> m.columns.len() == m.values.len(),
{
}

/// Parsing depends on the text alone: equal texts give equal results.
pub proof fn lemma_parse_deterministic(a: &str, b: &str)
    requires
        a@ == b@,
    ensures
        parse_spec(a@) == parse_spec(b@),
{
}

} // verus!
