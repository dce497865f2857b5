use odata_params::filters::{
    parse_str, CompareOperator, Expr, LambdaOperator, Number, ParseError, Value,
};

fn identifier(name: &str) -> Expr {
    Expr::Identifier(name.to_owned())
}

fn number(unscaled: &str) -> Expr {
    Expr::Value(Value::Number(Number { unscaled: unscaled.to_owned(), scale: 0 }))
}

fn compare(lhs: Expr, op: CompareOperator, rhs: Expr) -> Expr {
    Expr::Compare(Box::new(lhs), op, Box::new(rhs))
}

#[test]
fn parses_every_comparison_operator() {
    let cases = [
        ("eq", CompareOperator::Equal),
        ("ne", CompareOperator::NotEqual),
        ("gt", CompareOperator::GreaterThan),
        ("ge", CompareOperator::GreaterOrEqual),
        ("lt", CompareOperator::LessThan),
        ("le", CompareOperator::LessOrEqual),
        ("has", CompareOperator::Has),
    ];
    for (token, op) in cases {
        assert_eq!(
            parse_str(format!("aa {token} bb").as_str()),
            Ok(compare(identifier("aa"), op, identifier("bb")))
        );
    }
}

#[test]
fn trims_white_space_around_the_text() {
    assert_eq!(
        parse_str(" \t\r\n aa eq 1 \u{a0}\n"),
        Ok(compare(identifier("aa"), CompareOperator::Equal, number("1")))
    );
}

#[test]
fn takes_white_space_between_tokens_or_none() {
    let expected = Ok(compare(identifier("aa"), CompareOperator::Equal, number("1")));
    assert_eq!(parse_str("aa\teq\r\n1"), expected);
    assert_eq!(parse_str("aa eq1"), expected);
    assert_eq!(
        parse_str("ff( aa ,bb )"),
        Ok(Expr::Function("ff".to_owned(), vec![identifier("aa"), identifier("bb")]))
    );
}

#[test]
fn does_not_take_other_white_space_between_tokens() {
    assert_eq!(parse_str("aa\u{a0}eq 1"), Err(ParseError::Parsing));
}

#[test]
fn nests_to_the_right_whichever_word_comes_first() {
    let aa = || identifier("aa");
    let bb = || identifier("bb");
    let cc = || identifier("cc");
    assert_eq!(
        parse_str("aa and bb or cc"),
        Ok(Expr::And(Box::new(aa()), Box::new(Expr::Or(Box::new(bb()), Box::new(cc())))))
    );
    assert_eq!(
        parse_str("aa or bb and cc"),
        Ok(Expr::Or(Box::new(aa()), Box::new(Expr::And(Box::new(bb()), Box::new(cc())))))
    );
}

#[test]
fn negates_all_that_follows() {
    assert_eq!(
        parse_str("not aa or bb"),
        Ok(Expr::Not(Box::new(Expr::Or(
            Box::new(identifier("aa")),
            Box::new(identifier("bb"))
        ))))
    );
    assert_eq!(
        parse_str("(not aa) or bb"),
        Ok(Expr::Or(
            Box::new(Expr::Not(Box::new(identifier("aa")))),
            Box::new(identifier("bb"))
        ))
    );
}

#[test]
fn reads_not_as_a_prefix_of_a_longer_word() {
    assert_eq!(
        parse_str("notable eq 1"),
        Ok(Expr::Not(Box::new(compare(
            identifier("able"),
            CompareOperator::Equal,
            number("1")
        ))))
    );
    assert_eq!(
        parse_str("not_ eq 1"),
        Ok(compare(identifier("not_"), CompareOperator::Equal, number("1")))
    );
}

#[test]
fn reads_an_operator_as_a_prefix_of_a_longer_word() {
    assert_eq!(
        parse_str("aa lease"),
        Ok(compare(identifier("aa"), CompareOperator::LessOrEqual, identifier("ase")))
    );
}

#[test]
fn rejects_an_identifier_of_one_character() {
    assert_eq!(parse_str("a eq 1"), Err(ParseError::Parsing));
    assert_eq!(parse_str("aa eq b"), Err(ParseError::Parsing));
    assert_eq!(parse_str("xs/any(x: x eq 1)"), Err(ParseError::Parsing));
}

#[test]
fn rejects_text_that_is_left_over() {
    assert_eq!(parse_str("aa eq 1 bb"), Err(ParseError::Parsing));
    assert_eq!(parse_str("(aa) eq 1"), Err(ParseError::Parsing));
    assert_eq!(parse_str("aa or"), Err(ParseError::Parsing));
    assert_eq!(parse_str("aa eq 'it''s'"), Err(ParseError::Parsing));
}

#[test]
fn rejects_the_empty_text() {
    assert_eq!(parse_str(""), Err(ParseError::Parsing));
    assert_eq!(parse_str("   "), Err(ParseError::Parsing));
    assert_eq!(parse_str("()"), Err(ParseError::Parsing));
}

#[test]
fn parses_a_bare_value() {
    assert_eq!(parse_str("true"), Ok(Expr::Value(Value::Bool(true))));
    assert_eq!(parse_str("isActive"), Ok(identifier("isActive")));
}

#[test]
fn reads_a_literal_before_an_identifier() {
    assert_eq!(parse_str("aa eq nullable"), Err(ParseError::Parsing));
    assert_eq!(
        parse_str("nullable(aa)"),
        Ok(Expr::Function("nullable".to_owned(), vec![identifier("aa")]))
    );
}

#[test]
fn parses_an_alias_with_its_at_sign() {
    assert_eq!(
        parse_str("aa eq @limit"),
        Ok(compare(identifier("aa"), CompareOperator::Equal, Expr::Alias("@limit".to_owned())))
    );
    assert_eq!(parse_str("aa eq @1"), Err(ParseError::Parsing));
}

#[test]
fn parses_a_call_without_arguments() {
    assert_eq!(parse_str("now()"), Ok(Expr::Function("now".to_owned(), vec![])));
    assert_eq!(parse_str("now ( )"), Ok(Expr::Function("now".to_owned(), vec![])));
}

#[test]
fn takes_filters_as_arguments_and_as_items() {
    assert_eq!(
        parse_str("ff(aa or bb, not cc)"),
        Ok(Expr::Function(
            "ff".to_owned(),
            vec![
                Expr::Or(Box::new(identifier("aa")), Box::new(identifier("bb"))),
                Expr::Not(Box::new(identifier("cc"))),
            ]
        ))
    );
    assert_eq!(
        parse_str("aa in ()"),
        Ok(Expr::In(Box::new(identifier("aa")), vec![]))
    );
}

#[test]
fn rejects_a_comma_that_nothing_follows() {
    assert_eq!(parse_str("ff(aa, )"), Err(ParseError::Parsing));
    assert_eq!(parse_str("ff(, aa)"), Err(ParseError::Parsing));
}

#[test]
fn parses_both_quantifiers() {
    let body = || compare(identifier("it"), CompareOperator::GreaterThan, number("1"));
    assert_eq!(
        parse_str("items/all( it : it gt 1 )"),
        Ok(Expr::Lambda(
            Box::new(identifier("items")),
            LambdaOperator::All,
            "it".to_owned(),
            Box::new(body())
        ))
    );
    assert_eq!(
        parse_str("items/any(it:it gt 1)"),
        Ok(Expr::Lambda(
            Box::new(identifier("items")),
            LambdaOperator::Any,
            "it".to_owned(),
            Box::new(body())
        ))
    );
}

#[test]
fn takes_no_white_space_inside_the_head_of_a_lambda() {
    assert_eq!(parse_str("items /any(it: it gt 1)"), Err(ParseError::Parsing));
    assert_eq!(parse_str("items/any (it: it gt 1)"), Err(ParseError::Parsing));
}

#[test]
fn parses_deeply_nested_parentheses() {
    let mut text = String::new();
    for _ in 0..12 {
        text.push('(');
    }
    text.push_str("aa eq 1");
    for _ in 0..12 {
        text.push(')');
    }
    assert_eq!(
        parse_str(text.as_str()),
        Ok(compare(identifier("aa"), CompareOperator::Equal, number("1")))
    );
}
