use odata_params::filters::{
    parse_str, to_query_string, write_query_string, CompareOperator, Expr, LambdaOperator,
    Number, ParseError, Value,
};

fn identifier(name: &str) -> Expr {
    Expr::Identifier(name.to_owned())
}

fn number(unscaled: &str, scale: i64) -> Expr {
    Expr::Value(Value::Number(Number { unscaled: unscaled.to_owned(), scale }))
}

fn text(s: &str) -> Expr {
    Expr::Value(Value::String(s.to_owned()))
}

fn or(lhs: Expr, rhs: Expr) -> Expr {
    Expr::Or(Box::new(lhs), Box::new(rhs))
}

fn and(lhs: Expr, rhs: Expr) -> Expr {
    Expr::And(Box::new(lhs), Box::new(rhs))
}

#[test]
fn renders_a_comparison() {
    let expr = Expr::Compare(
        Box::new(identifier("age")),
        CompareOperator::GreaterThan,
        Box::new(number("30", 0)),
    );
    assert_eq!(to_query_string(&expr), Ok("age gt 30".to_owned()));
}

#[test]
fn renders_every_comparison_operator() {
    let cases = [
        (CompareOperator::Equal, "aa eq bb"),
        (CompareOperator::NotEqual, "aa ne bb"),
        (CompareOperator::GreaterThan, "aa gt bb"),
        (CompareOperator::GreaterOrEqual, "aa ge bb"),
        (CompareOperator::LessThan, "aa lt bb"),
        (CompareOperator::LessOrEqual, "aa le bb"),
        (CompareOperator::Has, "aa has bb"),
    ];
    for (op, expected) in cases {
        let expr = Expr::Compare(Box::new(identifier("aa")), op, Box::new(identifier("bb")));
        assert_eq!(to_query_string(&expr), Ok(expected.to_owned()));
    }
}

#[test]
fn names_the_operators() {
    assert_eq!(CompareOperator::GreaterOrEqual.to_string(), "ge");
    assert_eq!(CompareOperator::Has.as_str(), "has");
    assert_eq!(LambdaOperator::Any.to_string(), "any");
    assert_eq!(LambdaOperator::All.as_str(), "all");
}

#[test]
fn leaves_the_outermost_join_bare() {
    assert_eq!(to_query_string(&or(identifier("aa"), identifier("bb"))), Ok("aa or bb".to_owned()));
    assert_eq!(
        to_query_string(&and(identifier("aa"), identifier("bb"))),
        Ok("aa and bb".to_owned())
    );
}

#[test]
fn puts_a_nested_join_in_parentheses() {
    assert_eq!(
        to_query_string(&and(or(identifier("aa"), identifier("bb")), identifier("cc"))),
        Ok("(aa or bb) and cc".to_owned())
    );
    assert_eq!(
        to_query_string(&or(identifier("aa"), and(identifier("bb"), identifier("cc")))),
        Ok("aa or (bb and cc)".to_owned())
    );
    assert_eq!(
        to_query_string(&Expr::Not(Box::new(or(identifier("aa"), identifier("bb"))))),
        Ok("not (aa or bb)".to_owned())
    );
}

#[test]
fn renders_lists_with_comma_and_space() {
    assert_eq!(
        to_query_string(&Expr::In(
            Box::new(identifier("name")),
            vec![text("John"), text("Jane"), text("Doe")]
        )),
        Ok("name in ('John', 'Jane', 'Doe')".to_owned())
    );
    assert_eq!(
        to_query_string(&Expr::In(Box::new(identifier("name")), vec![])),
        Ok("name in ()".to_owned())
    );
    assert_eq!(
        to_query_string(&Expr::Function(
            "substring".to_owned(),
            vec![identifier("name"), number("1", 0), number("3", 0)]
        )),
        Ok("substring(name, 1, 3)".to_owned())
    );
    assert_eq!(
        to_query_string(&Expr::Function("now".to_owned(), vec![])),
        Ok("now()".to_owned())
    );
    assert_eq!(
        to_query_string(&Expr::Function(
            "ff".to_owned(),
            vec![or(identifier("aa"), identifier("bb"))]
        )),
        Ok("ff(aa or bb)".to_owned())
    );
}

#[test]
fn renders_a_lambda() {
    let expr = Expr::Lambda(
        Box::new(identifier("labels")),
        LambdaOperator::Any,
        "label".to_owned(),
        Box::new(Expr::Compare(
            Box::new(identifier("label")),
            CompareOperator::Equal,
            Box::new(text("Heating")),
        )),
    );
    assert_eq!(to_query_string(&expr), Ok("labels/any(label:label eq 'Heating')".to_owned()));
}

#[test]
fn renders_an_alias_as_it_stands() {
    assert_eq!(to_query_string(&Expr::Alias("@limit".to_owned())), Ok("@limit".to_owned()));
}

#[test]
fn appends_to_the_writer() {
    let mut out = "$filter=".to_owned();
    assert_eq!(write_query_string(&mut out, &or(identifier("aa"), identifier("bb"))), Ok(()));
    assert_eq!(out, "$filter=aa or bb");
}

#[test]
fn keeps_what_was_written_before_a_literal_that_denotes_nothing() {
    let mut out = "$filter=".to_owned();
    let expr =
        Expr::Compare(Box::new(identifier("aa")), CompareOperator::Equal, Box::new(number("x", 0)));
    assert!(write_query_string(&mut out, &expr).is_err());
    assert!(out.starts_with("$filter="));
}

#[test]
fn gives_the_same_tree_when_parsed_again() {
    let texts = [
        "name eq 'John' and isActive eq true",
        "(name eq 'John' and isActive eq true) or age gt 30",
        "((aa eq 1 and bb eq 2) or (cc gt 30 and cc lt 50)) and (dd eq 'x' or dd eq 'y')",
        "not (not (isActive eq false))",
        "price gt 50.0 and (name eq 'John' or endswith(name, 'Doe'))",
        "not name in ('John', 'Jane', 'Doe')",
        "labels/any(label: label eq 'Architecture') or labels/all(label: label ne null)",
        "id eq 123e4567-e89b-12d3-a456-426614174000",
        "at eq 2020-01-01T01:00:00+01:00 and day eq 2024-02-29 and hour ge 12:30:15",
        "ff(@limit, gg(), hh(aa or bb, 1.50))",
    ];
    for text in texts {
        let tree = parse_str(text).expect("a tree");
        let rendered = to_query_string(&tree).expect("a text");
        assert_eq!(parse_str(rendered.as_str()), Ok(tree));
    }
}

#[test]
fn does_not_give_the_same_tree_for_a_negation_on_the_left() {
    let tree = parse_str("(not aa) or bb").expect("a tree");
    let rendered = to_query_string(&tree).expect("a text");
    assert_eq!(rendered, "not aa or bb");
    assert_eq!(
        parse_str(rendered.as_str()),
        Ok(Expr::Not(Box::new(or(identifier("aa"), identifier("bb")))))
    );
}

#[test]
fn does_not_give_the_same_tree_for_a_quote_in_a_string() {
    let tree = parse_str(r"aa eq 'it\'s'").expect("a tree");
    let rendered = to_query_string(&tree).expect("a text");
    assert_eq!(rendered, "aa eq 'it''s'");
    assert_eq!(parse_str(rendered.as_str()), Err(ParseError::Parsing));
}

#[test]
fn renders_a_small_number_with_an_exponent() {
    let tree = parse_str("aa eq 0.0000001").expect("a tree");
    assert_eq!(
        tree,
        Expr::Compare(
            Box::new(identifier("aa")),
            CompareOperator::Equal,
            Box::new(number("1", 7))
        )
    );
    let rendered = to_query_string(&tree).expect("a text");
    assert_eq!(rendered, "aa eq 1E-7");
    assert_eq!(parse_str(rendered.as_str()), Err(ParseError::Parsing));
}

#[test]
fn gives_the_same_tree_for_a_name_that_starts_with_not_on_the_right() {
    let tree = parse_str("aa eq notable").expect("a tree");
    assert_eq!(
        tree,
        Expr::Compare(
            Box::new(identifier("aa")),
            CompareOperator::Equal,
            Box::new(identifier("notable"))
        )
    );
    let rendered = to_query_string(&tree).expect("a text");
    assert_eq!(rendered, "aa eq notable");
    assert_eq!(parse_str(rendered.as_str()), Ok(tree));
}

#[test]
fn does_not_give_the_same_tree_for_a_name_that_starts_with_not_on_the_left() {
    let tree = Expr::Compare(
        Box::new(identifier("notable")),
        CompareOperator::Equal,
        Box::new(number("1", 0)),
    );
    let rendered = to_query_string(&tree).expect("a text");
    assert_eq!(rendered, "notable eq 1");
    assert_eq!(
        parse_str(rendered.as_str()),
        Ok(Expr::Not(Box::new(Expr::Compare(
            Box::new(identifier("able")),
            CompareOperator::Equal,
            Box::new(number("1", 0)),
        ))))
    );
}

#[test]
fn gives_the_same_tree_for_a_line_break_in_a_string() {
    let tree = parse_str(r"aa eq 'one\ntwo'").expect("a tree");
    let rendered = to_query_string(&tree).expect("a text");
    assert_eq!(rendered, "aa eq 'one\ntwo'");
    assert_eq!(parse_str(rendered.as_str()), Ok(tree));
}

#[test]
fn loses_what_is_finer_than_a_millisecond() {
    let tree = parse_str("at eq 2020-01-01T00:00:00.123456Z").expect("a tree");
    let rendered = to_query_string(&tree).expect("a text");
    assert_eq!(rendered, "at eq 2020-01-01T00:00:00.123Z");
    assert_ne!(parse_str(rendered.as_str()), Ok(tree));
}

#[test]
fn clones_a_tree() {
    let tree = parse_str("ff(aa, 'x') and (bb in (1, 2.5) or not items/any(it: it eq null))")
        .expect("a tree");
    assert_eq!(tree.clone(), tree);
}

#[test]
fn leaves_a_join_bare_outside_a_logical_operand() {
    let join = || or(identifier("aa"), identifier("bb"));
    assert_eq!(
        to_query_string(&Expr::In(Box::new(identifier("xx")), vec![join(), identifier("cc")])),
        Ok("xx in (aa or bb, cc)".to_owned())
    );
    assert_eq!(
        to_query_string(&Expr::Lambda(
            Box::new(identifier("items")),
            LambdaOperator::All,
            "it".to_owned(),
            Box::new(join())
        )),
        Ok("items/all(it:aa or bb)".to_owned())
    );
    assert_eq!(
        to_query_string(&Expr::Compare(
            Box::new(join()),
            CompareOperator::Equal,
            Box::new(identifier("cc"))
        )),
        Ok("aa or bb eq cc".to_owned())
    );
    assert_eq!(
        to_query_string(&Expr::Function(
            "ff".to_owned(),
            vec![Expr::Not(Box::new(and(identifier("aa"), identifier("bb"))))]
        )),
        Ok("ff(not (aa and bb))".to_owned())
    );
}

#[test]
fn gives_the_same_tree_for_bare_joins_in_lists_and_lambdas() {
    let texts = [
        "ff(aa or bb, cc and dd)",
        "xx in (aa or bb, not cc)",
        "items/any(it: it eq 1 or it eq 2)",
        "ff(aa or (bb and cc))",
    ];
    for text in texts {
        let tree = parse_str(text).expect("a tree");
        let rendered = to_query_string(&tree).expect("a text");
        assert_eq!(parse_str(rendered.as_str()), Ok(tree));
    }
}

#[test]
fn compares_numbers_by_value() {
    assert_eq!(parse_str("xx eq 1.0"), parse_str("xx eq 1.00"));
    assert_eq!(number("10", 1), number("1", 0));
    assert_eq!(number("0", 3), number("-0", 0));
    assert_ne!(number("10", 1), number("11", 1));
    assert_ne!(parse_str("xx eq 1.0"), parse_str("xx eq 1.01"));
    assert_eq!(number("abc", 1), number("abc", 1));
    assert_ne!(number("abc", 1), number("abc", 2));
    assert_ne!(number("abc", 1), number("1", 1));
}

#[test]
fn gives_an_equal_tree_for_a_number_that_is_written_shorter() {
    let tree = parse_str("xx eq 0.0").expect("a tree");
    let rendered = to_query_string(&tree).expect("a text");
    assert_eq!(parse_str(rendered.as_str()), Ok(tree));
}

#[test]
fn renders_every_tree_that_was_parsed() {
    let texts = [
        "aa eq 0.50 and bb eq 9999-12-31 and cc eq 23:59:59.999999999",
        "at eq 9999-12-31T23:59:59-14:00 or at eq 0000-01-01T00:00:00+14:00",
        "id eq ffffffff-ffff-ffff-ffff-ffffffffffff",
    ];
    for text in texts {
        let tree = parse_str(text).expect("a tree");
        assert!(to_query_string(&tree).is_ok());
    }
}
