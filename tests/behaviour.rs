use sql_insert::{parse, Keyword, ParseError, SqlInsert};

fn parts(text: &str) -> (String, Option<String>, Vec<String>, Vec<String>) {
    let s = parse(text).unwrap();
    (
        s.table_name.to_string(),
        s.alias.map(|a| a.to_string()),
        s.columns.iter().map(|c| c.to_string()).collect(),
        s.values,
    )
}

#[test]
fn well_formed_lists_keep_their_order() {
    let (t, a, c, v) = parts("INSERT INTO T (c1,c2,c3) VALUES (v1,v2,v3)");
    assert_eq!(t, "T");
    assert_eq!(a, None);
    assert_eq!(c, vec!["c1", "c2", "c3"]);
    assert_eq!(v, vec!["v1", "v2", "v3"]);
}

#[test]
fn keywords_ignore_case() {
    let expected = parts("insert into t (a) values (1)");
    assert_eq!(parts("INSERT INTO t (a) VALUES (1)"), expected);
    assert_eq!(parts("InSeRt iNtO t (a) vAlUeS (1)"), expected);
    assert_eq!(parts("insert INTO t (a) values (1)"), expected);
    assert_eq!(parts("insert into t (a) VALUES (1)"), expected);
}

#[test]
fn whitespace_runs_do_not_matter() {
    let expected = parts("insert into t (a, b) values (1, 2)");
    assert_eq!(parts("insert      into   t (a,b) values(1,2)"), expected);
    assert_eq!(parts("\tinsert\ninto\r\nt(a ,b)values ( 1 ,\t2 )"), expected);
}

#[test]
fn alias_only_with_second_token() {
    let s = parse("insert into t alias (a) values (1)").unwrap();
    assert_eq!(s.table_name, "t");
    assert_eq!(s.alias, Some("alias"));
    let s = parse("insert into t (a) values (1)").unwrap();
    assert_eq!(s.alias, None);
}

#[test]
fn escaped_quote_stays_in_one_value() {
    let s = parse("insert into t (a) values ('it\\'s here')").unwrap();
    assert_eq!(s.values, vec!["'it\\'s here'".to_string()]);
}

#[test]
fn structural_characters_inside_quotes() {
    let s = parse("insert into t (a, b) values ('x, y)', '(z')").unwrap();
    assert_eq!(s.values, vec!["'x, y)'".to_string(), "'(z'".to_string()]);
}

#[test]
fn empty_lists() {
    let s = parse("insert into t () values ()").unwrap();
    assert!(s.columns.is_empty());
    assert!(s.values.is_empty());
    let s = parse("insert into t ( ) values ( )").unwrap();
    assert!(s.columns.is_empty());
    assert!(s.values.is_empty());
}

#[test]
fn malformed_inputs_fail() {
    assert_eq!(parse("").err(), Some(ParseError::UnexpectedEnd { offset: 0 }));
    assert_eq!(
        parse("insrt into t (a) values (1)").err(),
        Some(ParseError::KeywordMismatch { expected: Keyword::Insert, found: 'r', offset: 3 })
    );
    assert_eq!(
        parse("insert t (a) values (1)").err(),
        Some(ParseError::KeywordMismatch { expected: Keyword::Into, found: 't', offset: 7 })
    );
    assert_eq!(
        parse("insert into t (a, b").err(),
        Some(ParseError::UnterminatedList { offset: 19 })
    );
    assert_eq!(
        parse("insert into t (a, b) values (1)").err(),
        Some(ParseError::ArityMismatch { columns: 2, values: 1 })
    );
}

#[test]
fn each_error_kind() {
    assert_eq!(parse("  ins").err(), Some(ParseError::UnexpectedEnd { offset: 5 }));
    assert_eq!(
        parse("insert into (a) values (1)").err(),
        Some(ParseError::MissingToken { offset: 12 })
    );
    assert_eq!(
        parse("insert into t (a b) values (1)").err(),
        Some(ParseError::UnexpectedCharacter { found: 'b', offset: 17 })
    );
    assert_eq!(
        parse("insertinto t (a) values (1)").err(),
        Some(ParseError::UnexpectedCharacter { found: 'i', offset: 6 })
    );
    assert_eq!(
        parse("insert into t (a, b) values (1,)").err(),
        Some(ParseError::MissingToken { offset: 31 })
    );
    assert_eq!(
        parse("insert into t (a) values ('open)").err(),
        Some(ParseError::UnterminatedList { offset: 32 })
    );
    assert_eq!(
        parse("insert into t a b (x) values (1)").err(),
        Some(ParseError::UnexpectedCharacter { found: 'b', offset: 16 })
    );
    assert_eq!(
        parse("insert into t (a) valuez (1)").err(),
        Some(ParseError::KeywordMismatch { expected: Keyword::Values, found: 'z', offset: 23 })
    );
}

#[test]
fn parsing_twice_gives_equal_records() {
    let text = "insert into t x (a, b) values ('q,1', f(2, 3))";
    assert_eq!(parts(text), parts(text));
    assert_eq!(parts(text).3, vec!["'q,1'", "f(2, 3)"]);
}

#[test]
fn trailing_separator_and_text_after_values() {
    let s = parse("insert into t (a) values (1);").unwrap();
    assert_eq!(s.values, vec!["1".to_string()]);
    let s = parse("insert into t(a)values(1) and more").unwrap();
    assert_eq!(s.table_name, "t");
    assert_eq!(s.values, vec!["1".to_string()]);
}

#[test]
fn doubled_commas_between_columns_are_tolerated() {
    let s = parse("insert into t (a,,b) values (1, 2)").unwrap();
    assert_eq!(s.columns, vec!["a", "b"]);
}

#[test]
fn new_keeps_its_parts() {
    let s = SqlInsert::new("t", Some("x"), vec!["a"], vec!["1".to_string()]);
    assert_eq!(s.table_name, "t");
    assert_eq!(s.alias, Some("x"));
    assert_eq!(s.columns, vec!["a"]);
    assert_eq!(s.values, vec!["1".to_string()]);
}

#[test]
fn leading_separator_is_tolerated() {
    let s = parse(" ; insert into t (a) values (1)").unwrap();
    assert_eq!(s.table_name, "t");
    assert_eq!(s.columns, vec!["a"]);
    assert_eq!(s.values, vec!["1".to_string()]);
}

#[test]
fn values_are_trimmed_but_keep_inner_spaces() {
    let s = parse("insert into t (a, b) values (  'a b'  ,  x y )").unwrap();
    assert_eq!(s.values, vec!["'a b'".to_string(), "x y".to_string()]);
}

#[test]
fn non_ascii_text_is_kept() {
    let s = parse("insert into tübel (größe) values ('née')").unwrap();
    assert_eq!(s.table_name, "tübel");
    assert_eq!(s.columns, vec!["größe"]);
    assert_eq!(s.values, vec!["'née'".to_string()]);
}
