use odata_params::filters::{
    CompareOperator, Expr, FunctionsTypeMap, IdentifiersTypeMap, LambdaOperator, Number, Type,
    ValidationError, Value,
};

fn identifier(name: &str) -> Expr {
    Expr::Identifier(name.to_owned())
}

fn number() -> Expr {
    Expr::Value(Value::Number(Number { unscaled: "1".to_owned(), scale: 0 }))
}

fn text() -> Expr {
    Expr::Value(Value::String("text".to_owned()))
}

fn truth() -> Expr {
    Expr::Value(Value::Bool(true))
}

fn null() -> Expr {
    Expr::Value(Value::Null)
}

fn compare(lhs: Expr, rhs: Expr) -> Expr {
    Expr::Compare(Box::new(lhs), CompareOperator::Equal, Box::new(rhs))
}

fn identifiers(entries: &[(&str, Type)]) -> IdentifiersTypeMap {
    let mut map = IdentifiersTypeMap::new();
    for (name, ty) in entries {
        map.insert((*name).to_owned(), *ty);
    }
    map
}

fn functions(entries: Vec<(&str, Vec<Type>, Option<Type>, Type)>) -> FunctionsTypeMap {
    let mut map = FunctionsTypeMap::new();
    for (name, parameters, variadic, result) in entries {
        map.insert(name.to_owned(), (parameters, variadic, result));
    }
    map
}

/// Whether two types are the same variant; `==` on `Type` is compatibility.
fn same(a: Type, b: Type) -> bool {
    format!("{a:?}") == format!("{b:?}")
}

#[test]
fn type_equality_has_null_as_wildcard() {
    let all = [
        Type::Null,
        Type::Boolean,
        Type::Number,
        Type::Uuid,
        Type::DateTime,
        Type::Date,
        Type::Time,
        Type::String,
    ];
    for a in all {
        assert!(Type::Null == a);
        assert!(a == Type::Null);
        for b in all {
            if !same(a, Type::Null) && !same(b, Type::Null) {
                assert_eq!(a == b, same(a, b));
            }
            assert_eq!(a == b, b == a);
        }
    }
    assert!(Type::Number != Type::String);
}

#[test]
fn tells_boolean_from_the_wildcard() {
    assert!(Type::Boolean.is_boolean());
    assert!(!Type::Null.is_boolean());
    assert!(Type::Null.is_null());
    assert!(Type::Null.same_variant(&Type::Null));
    assert!(!Type::Null.same_variant(&Type::Boolean));
}

#[test]
fn validates_an_identifier() {
    let ids = identifiers(&[("value", Type::Boolean)]);
    let funs = functions(vec![]);
    let expr = identifier("value");
    assert_eq!(expr.validate(&ids, &funs), Ok(Type::Boolean));
    assert_eq!(expr.are_types_valid(&ids, &funs), Ok(true));
}

#[test]
fn validates_a_function_call() {
    let ids = identifiers(&[("value", Type::Number)]);
    let funs = functions(vec![("sum", vec![Type::Number], None, Type::Number)]);
    let expr = Expr::Function("sum".to_owned(), vec![identifier("value")]);
    match expr.validate(&ids, &funs) {
        Ok(t) => assert!(same(t, Type::Number)),
        Err(e) => panic!("{e:?}"),
    }
    assert_eq!(expr.are_types_valid(&ids, &funs), Ok(false));
}

#[test]
fn rejects_a_wrong_number_of_arguments() {
    let ids = identifiers(&[("xx", Type::Number), ("yy", Type::Number)]);
    let funs = functions(vec![("sum", vec![Type::Number], None, Type::Number)]);
    let expr = Expr::Function("sum".to_owned(), vec![identifier("xx"), identifier("yy")]);
    assert_eq!(
        expr.validate(&ids, &funs),
        Err(ValidationError::IncorrectFunctionArgumentsCount {
            name: "sum".to_owned(),
            is_variadic: false,
            expected: 1,
            given: 2,
        })
    );
    let expr = Expr::Function("sum".to_owned(), vec![]);
    assert_eq!(
        expr.validate(&ids, &funs),
        Err(ValidationError::IncorrectFunctionArgumentsCount {
            name: "sum".to_owned(),
            is_variadic: false,
            expected: 1,
            given: 0,
        })
    );
}

#[test]
fn takes_more_arguments_where_the_function_is_variadic() {
    let ids = identifiers(&[]);
    let funs = functions(vec![(
        "concat",
        vec![Type::String, Type::String],
        Some(Type::String),
        Type::String,
    )]);
    for count in 2..6 {
        let expr = Expr::Function("concat".to_owned(), (0..count).map(|_| text()).collect());
        match expr.validate(&ids, &funs) {
            Ok(t) => assert!(same(t, Type::String)),
            Err(e) => panic!("{e:?}"),
        }
    }
    let expr = Expr::Function("concat".to_owned(), vec![text()]);
    assert_eq!(
        expr.validate(&ids, &funs),
        Err(ValidationError::IncorrectFunctionArgumentsCount {
            name: "concat".to_owned(),
            is_variadic: true,
            expected: 2,
            given: 1,
        })
    );
}

#[test]
fn rejects_an_argument_of_the_wrong_type() {
    let ids = identifiers(&[]);
    let funs = functions(vec![(
        "ff",
        vec![Type::String, Type::Number],
        Some(Type::Boolean),
        Type::String,
    )]);
    let expr = Expr::Function("ff".to_owned(), vec![text(), text()]);
    match expr.validate(&ids, &funs) {
        Err(ValidationError::IncorrectFunctionArgumentType { name, position, expected, given }) => {
            assert_eq!(name, "ff");
            assert_eq!(position, 2);
            assert!(same(expected, Type::Number));
            assert!(same(given, Type::String));
        },
        other => panic!("{other:?}"),
    }
    let expr = Expr::Function("ff".to_owned(), vec![text(), number(), truth(), number()]);
    match expr.validate(&ids, &funs) {
        Err(ValidationError::IncorrectFunctionArgumentType { name, position, expected, given }) => {
            assert_eq!(name, "ff");
            assert_eq!(position, 4);
            assert!(same(expected, Type::Boolean));
            assert!(same(given, Type::Number));
        },
        other => panic!("{other:?}"),
    }
    let expr = Expr::Function("ff".to_owned(), vec![null(), null(), null()]);
    assert!(expr.validate(&ids, &funs).is_ok());
}

#[test]
fn rejects_what_the_schemas_lack() {
    let ids = identifiers(&[]);
    let funs = functions(vec![]);
    assert_eq!(
        identifier("missing").validate(&ids, &funs),
        Err(ValidationError::UndefinedIdentifier { name: "missing".to_owned() })
    );
    assert_eq!(
        Expr::Alias("@limit".to_owned()).validate(&ids, &funs),
        Err(ValidationError::UndefinedIdentifier { name: "@limit".to_owned() })
    );
    assert_eq!(
        Expr::Function("missing".to_owned(), vec![]).validate(&ids, &funs),
        Err(ValidationError::UndefinedFunction { name: "missing".to_owned() })
    );
}

#[test]
fn looks_an_alias_up_like_an_identifier() {
    let ids = identifiers(&[("@limit", Type::Date)]);
    let funs = functions(vec![]);
    match Expr::Alias("@limit".to_owned()).validate(&ids, &funs) {
        Ok(t) => assert!(same(t, Type::Date)),
        Err(e) => panic!("{e:?}"),
    }
}

#[test]
fn gives_each_literal_its_type() {
    let ids = identifiers(&[]);
    let funs = functions(vec![]);
    let cases = [
        (Value::Null, Type::Null),
        (Value::Bool(false), Type::Boolean),
        (Value::Number(Number { unscaled: "1".to_owned(), scale: 0 }), Type::Number),
        (Value::Uuid(0), Type::Uuid),
        (
            Value::DateTime(odata_params::filters::DateTime { seconds: 0, nanoseconds: 0 }),
            Type::DateTime,
        ),
        (Value::Date(odata_params::filters::Date { year: 2020, month: 1, day: 1 }), Type::Date),
        (Value::Time(odata_params::filters::Time { second_of_day: 0, nanosecond: 0 }), Type::Time),
        (Value::String(String::new()), Type::String),
    ];
    for (value, expected) in cases {
        match Expr::Value(value).validate(&ids, &funs) {
            Ok(t) => assert!(same(t, expected)),
            Err(e) => panic!("{e:?}"),
        }
    }
}

#[test]
fn joins_need_exact_booleans() {
    let ids = identifiers(&[]);
    let funs = functions(vec![]);
    let join = Expr::And(Box::new(truth()), Box::new(truth()));
    assert_eq!(join.validate(&ids, &funs), Ok(Type::Boolean));
    for join in [
        Expr::Or(Box::new(truth()), Box::new(number())),
        Expr::And(Box::new(truth()), Box::new(number())),
    ] {
        match join.validate(&ids, &funs) {
            Err(ValidationError::LogicalJoinRequiresBooleans { lhs, rhs }) => {
                assert!(same(lhs, Type::Boolean));
                assert!(same(rhs, Type::Number));
            },
            other => panic!("{other:?}"),
        }
    }
    match Expr::Or(Box::new(null()), Box::new(truth())).validate(&ids, &funs) {
        Err(ValidationError::LogicalJoinRequiresBooleans { lhs, rhs }) => {
            assert!(same(lhs, Type::Null));
            assert!(same(rhs, Type::Boolean));
        },
        other => panic!("{other:?}"),
    }
}

#[test]
fn not_needs_an_exact_boolean() {
    let ids = identifiers(&[]);
    let funs = functions(vec![]);
    assert_eq!(Expr::Not(Box::new(truth())).validate(&ids, &funs), Ok(Type::Boolean));
    match Expr::Not(Box::new(text())).validate(&ids, &funs) {
        Err(ValidationError::LogicalNotRequiresBoolean { given }) => {
            assert!(same(given, Type::String));
        },
        other => panic!("{other:?}"),
    }
    match Expr::Not(Box::new(null())).validate(&ids, &funs) {
        Err(ValidationError::LogicalNotRequiresBoolean { given }) => {
            assert!(same(given, Type::Null));
        },
        other => panic!("{other:?}"),
    }
}

#[test]
fn compares_compatible_types_only() {
    let ids = identifiers(&[]);
    let funs = functions(vec![]);
    assert_eq!(compare(number(), number()).validate(&ids, &funs), Ok(Type::Boolean));
    assert_eq!(compare(number(), null()).validate(&ids, &funs), Ok(Type::Boolean));
    assert_eq!(compare(null(), text()).validate(&ids, &funs), Ok(Type::Boolean));
    match compare(number(), text()).validate(&ids, &funs) {
        Err(ValidationError::ComparingIncompatibleTypes { lhs, rhs }) => {
            assert!(same(lhs, Type::Number));
            assert!(same(rhs, Type::String));
        },
        other => panic!("{other:?}"),
    }
}

#[test]
fn checks_every_item_of_a_list() {
    let ids = identifiers(&[]);
    let funs = functions(vec![]);
    let list = Expr::In(Box::new(number()), vec![number(), null(), number()]);
    assert_eq!(list.validate(&ids, &funs), Ok(Type::Boolean));
    let list = Expr::In(Box::new(number()), vec![]);
    assert_eq!(list.validate(&ids, &funs), Ok(Type::Boolean));
    let list = Expr::In(Box::new(number()), vec![number(), text(), truth()]);
    match list.validate(&ids, &funs) {
        Err(ValidationError::ComparingIncompatibleTypes { lhs, rhs }) => {
            assert!(same(lhs, Type::Number));
            assert!(same(rhs, Type::String));
        },
        other => panic!("{other:?}"),
    }
}

#[test]
fn reports_the_first_violation_from_the_left() {
    let ids = identifiers(&[]);
    let funs = functions(vec![]);
    let expr = Expr::And(
        Box::new(compare(identifier("first"), number())),
        Box::new(compare(identifier("second"), number())),
    );
    assert_eq!(
        expr.validate(&ids, &funs),
        Err(ValidationError::UndefinedIdentifier { name: "first".to_owned() })
    );
}

#[test]
fn binds_the_variable_of_a_lambda_in_its_body_only() {
    let ids = identifiers(&[("labels", Type::String)]);
    let funs = functions(vec![]);
    let lambda = Expr::Lambda(
        Box::new(identifier("labels")),
        LambdaOperator::Any,
        "label".to_owned(),
        Box::new(compare(identifier("label"), text())),
    );
    assert_eq!(lambda.validate(&ids, &funs), Ok(Type::Boolean));
    assert_eq!(
        identifier("label").validate(&ids, &funs),
        Err(ValidationError::UndefinedIdentifier { name: "label".to_owned() })
    );
    let outside = Expr::And(Box::new(lambda), Box::new(compare(identifier("label"), text())));
    assert_eq!(
        outside.validate(&ids, &funs),
        Err(ValidationError::UndefinedIdentifier { name: "label".to_owned() })
    );
}

#[test]
fn shadows_an_identifier_by_the_variable_of_a_lambda() {
    let ids = identifiers(&[("labels", Type::String), ("label", Type::Number)]);
    let funs = functions(vec![]);
    let body = || compare(identifier("label"), text());
    assert!(body().validate(&ids, &funs).is_err());
    let lambda = Expr::Lambda(
        Box::new(identifier("labels")),
        LambdaOperator::All,
        "label".to_owned(),
        Box::new(body()),
    );
    assert_eq!(lambda.validate(&ids, &funs), Ok(Type::Boolean));
}

#[test]
fn needs_the_body_of_a_lambda_to_be_boolean() {
    let ids = identifiers(&[("labels", Type::String)]);
    let funs = functions(vec![]);
    let lambda = |body: Expr| {
        Expr::Lambda(
            Box::new(identifier("labels")),
            LambdaOperator::Any,
            "label".to_owned(),
            Box::new(body),
        )
    };
    match lambda(text()).validate(&ids, &funs) {
        Err(ValidationError::LogicalNotRequiresBoolean { given }) => {
            assert!(same(given, Type::String));
        },
        other => panic!("{other:?}"),
    }
    match lambda(identifier("label")).validate(&ids, &funs) {
        Err(ValidationError::LogicalNotRequiresBoolean { given }) => {
            assert!(same(given, Type::Null));
        },
        other => panic!("{other:?}"),
    }
    let unknown = Expr::Lambda(
        Box::new(identifier("missing")),
        LambdaOperator::Any,
        "label".to_owned(),
        Box::new(truth()),
    );
    assert_eq!(
        unknown.validate(&ids, &funs),
        Err(ValidationError::UndefinedIdentifier { name: "missing".to_owned() })
    );
}

#[test]
fn reads_what_was_inserted_last() {
    let mut ids = IdentifiersTypeMap::new();
    ids.insert("xx".to_owned(), Type::Number);
    ids.insert("xx".to_owned(), Type::String);
    match ids.get("xx") {
        Some(t) => assert!(same(t, Type::String)),
        None => panic!("no type"),
    }
    assert!(ids.get("yy").is_none());
    let mut funs = FunctionsTypeMap::new();
    funs.insert("ff".to_owned(), (vec![Type::Number], None, Type::Date));
    assert!(funs.get("ff").is_some());
    assert!(funs.get("gg").is_none());
}
