use vstd::prelude::*;
use vstd::string::*;
use crate::error::{Keyword, ParseError};
use crate::lists::{column_list, spans_within, take_columns, take_values, value_list};
use crate::scanner::{
    chars_of, expect_keyword, expect_open, expect_separator, expect_token, match_keyword,
    match_open, match_separator, skip_whitespace, skip_ws, take_token,
};

verus! {

/// A parsed `INSERT` statement: the table, its alias, and the columns paired with the values.
/// Each value is the literal as written, trimmed of surrounding whitespace, with its quotes and
/// escapes kept.
pub struct SqlInsert<'a> {
    pub table_name: &'a str,
    pub alias: Option<&'a str>,
    pub columns: Vec<&'a str>,
    pub values: Vec<String>,
}

/// The contents of a parsed statement, as character sequences.
pub ghost struct InsertModel {
    pub table: Seq<char>,
    pub alias: Option<Seq<char>>,
    pub columns: Seq<Seq<char>>,
    pub values: Seq<Seq<char>>,
}

impl<'a> View for SqlInsert<'a> {
    type V = InsertModel;

    open spec fn view(&self) -> InsertModel {
        InsertModel {
            table: self.table_name@,
            alias: match self.alias {
                Some(a) => Some(a@),
                None => None,
            },
            columns: self.columns@.map_values(|c: &'a str| c@),
            values: self.values@.map_values(|v: String| v@),
        }
    }
}

/// The text of each span of `s`.
pub open spec fn span_texts(s: Seq<char>, spans: Seq<(usize, usize)>) -> Seq<Seq<char>> {
    spans.map_values(|p: (usize, usize)| s.subrange(p.0 as int, p.1 as int))
}

/// Where the column list opens, and the alias span if there is one, for a table name that ends
/// at `t`.
pub open spec fn after_table(s: Seq<char>, t: int) -> Result<(Option<(usize, usize)>, int), ParseError> {
    let q = skip_ws(s, t);
    if q < s.len() && s[q] == '(' {
        Ok((None, q + 1))
    } else {
        match expect_token(s, q) {
            Err(e) => Err(e),
            Ok(a) => match expect_open(s, a) {
                Err(e) => Err(e),
                Ok(p) => Ok((Some((q as usize, a as usize)), p)),
            },
        }
    }
}

/// Where the statement begins: after leading whitespace and an optional `;` with the
/// whitespace that follows it.
pub open spec fn statement_start(s: Seq<char>) -> int {
    let p = skip_ws(s, 0);
    if p < s.len() && s[p] == ';' {
        skip_ws(s, p + 1)
    } else {
        p
    }
}

/// The statement that `s` holds, or the first thing wrong with it.
pub open spec fn parse_spec(s: Seq<char>) -> Result<InsertModel, ParseError> {
    let p0 = statement_start(s);
    match expect_keyword(s, p0, Keyword::Insert) {
        Err(e) => Err(e),
        Ok(p1) => match expect_separator(s, p1) {
            Err(e) => Err(e),
            Ok(p2) => match expect_keyword(s, p2, Keyword::Into) {
                Err(e) => Err(e),
                Ok(p3) => match expect_separator(s, p3) {
                    Err(e) => Err(e),
                    Ok(t0) => match expect_token(s, t0) {
                        Err(e) => Err(e),
                        Ok(t1) => match after_table(s, t1) {
                            Err(e) => Err(e),
                            Ok((alias, c0)) => match column_list(s, c0) {
                                Err(e) => Err(e),
                                Ok((cols, c1)) => match expect_keyword(s, skip_ws(s, c1), Keyword::Values) {
                                    Err(e) => Err(e),
                                    Ok(v0) => match expect_open(s, v0) {
                                        Err(e) => Err(e),
                                        Ok(v1) => match value_list(s, v1) {
                                            Err(e) => Err(e),
                                            Ok((vals, _)) => if cols.len() != vals.len() {
                                                Err(ParseError::ArityMismatch {
                                                    columns: cols.len() as usize,
                                                    values: vals.len() as usize,
                                                })
                                            } else {
                                                Ok(InsertModel {
                                                    table: s.subrange(t0, t1),
                                                    alias: match alias {
                                                        Some(a) => Some(s.subrange(a.0 as int, a.1 as int)),
                                                        None => None,
                                                    },
                                                    columns: span_texts(s, cols),
                                                    values: span_texts(s, vals),
                                                })
                                            },
                                        },
                                    },
                                },
                            },
                        },
                    },
                },
            },
        },
    }
}

/// A parse result in exec form, seen as a spec parse result.
pub open spec fn parsed<'a>(r: Result<SqlInsert<'a>, ParseError>) -> Result<InsertModel, ParseError> {
    match r {
        Ok(v) => Ok(v@),
        Err(e) => Err(e),
    }
}

impl<'a> SqlInsert<'a> {
    /// Assembles a statement from its parts.
    pub fn new<'b>(
        table_name: &'b str,
        alias: Option<&'b str>,
        columns: Vec<&'b str>,
        values: Vec<String>,
    ) -> (r: SqlInsert<'b>)
        ensures
            r.table_name == table_name,
            r.alias == alias,
            r.columns == columns,
            r.values == values,
    {
        SqlInsert { table_name: table_name, alias: alias, columns: columns, values: values }
    }
}

/// Parses one `INSERT INTO <table> [<alias>] (<columns>) VALUES (<values>)` statement.
pub fn parse<'a>(insert: &'a str) -> (r: Result<SqlInsert<'a>, ParseError>)
    ensures
        parsed(r) == parse_spec(insert@),
        r matches Ok(v) ==> v.columns.len() == v.values.len(),
{
    let s = chars_of(insert);
    let mut p0 = skip_whitespace(&s, 0);
    if p0 < s.len() && s[p0] == ';' {
        p0 = skip_whitespace(&s, p0 + 1);
    }
    let p1 = match match_keyword(&s, p0, Keyword::Insert) {
        Ok(x) => x,
        Err(e) => return Err(e),
    };
    let p2 = match match_separator(&s, p1) {
        Ok(x) => x,
        Err(e) => return Err(e),
    };
    let p3 = match match_keyword(&s, p2, Keyword::Into) {
        Ok(x) => x,
        Err(e) => return Err(e),
    };
    let t0 = match match_separator(&s, p3) {
        Ok(x) => x,
        Err(e) => return Err(e),
    };
    let t1 = match take_token(&s, t0) {
        Ok(x) => x,
        Err(e) => return Err(e),
    };
    let q = skip_whitespace(&s, t1);
    let mut alias: Option<&'a str> = None;
    let c0 = if q < s.len() && s[q] == '(' {
        q + 1
    } else {
        let a = match take_token(&s, q) {
            Ok(x) => x,
            Err(e) => return Err(e),
        };
        alias = Some(insert.substring_char(q, a));
        match match_open(&s, a) {
            Ok(x) => x,
            Err(e) => return Err(e),
        }
    };
    let (col_spans, c1) = match take_columns(&s, c0) {
        Ok(x) => x,
        Err(e) => return Err(e),
    };
    let v0 = match match_keyword(&s, skip_whitespace(&s, c1), Keyword::Values) {
        Ok(x) => x,
        Err(e) => return Err(e),
    };
    let v1 = match match_open(&s, v0) {
        Ok(x) => x,
        Err(e) => return Err(e),
    };
    let (val_spans, _) = match take_values(&s, v1) {
        Ok(x) => x,
        Err(e) => return Err(e),
    };
    if col_spans.len() != val_spans.len() {
        return Err(ParseError::ArityMismatch { columns: col_spans.len(), values: val_spans.len() });
    }
    let mut columns: Vec<&'a str> = Vec::new();
    let mut values: Vec<String> = Vec::new();
    let mut k: usize = 0;
    while k < col_spans.len()
        invariant
            k <= col_spans.len() == val_spans.len(),
            s@ == insert@,
            spans_within(col_spans@, s.len() as int),
            spans_within(val_spans@, s.len() as int),
            columns.len() == k,
            values.len() == k,
            forall|j: int| 0 <= j < k ==> #[trigger] columns@[j]@ == insert@.subrange(
                col_spans@[j].0 as int, col_spans@[j].1 as int),
            forall|j: int| 0 <= j < k ==> #[trigger] values@[j]@ == insert@.subrange(
                val_spans@[j].0 as int, val_spans@[j].1 as int),
        decreases col_spans.len() - k,
    {
        let (a, b) = col_spans[k];
        let column = insert.substring_char(a, b);
        columns.push(column);
        let (a, b) = val_spans[k];
        let value = insert.substring_char(a, b).to_owned();
        values.push(value);
        k = k + 1;
    }
    let table_name = insert.substring_char(t0, t1);
    let r = SqlInsert::new(table_name, alias, columns, values);
    assert(r@.columns =~= span_texts(s@, col_spans@));
    assert(r@.values =~= span_texts(s@, val_spans@));
    Ok(r)
}

} // verus!
