use lambda_parser::{parse_my_fn, parse_my_int, parse_my_var, Expr};

#[test]
fn test_parse_my_int() {
    assert_eq!(parse_my_int("1"), Ok(("", Expr::MyInt(1))));
    assert_eq!(parse_my_int("11"), Ok(("", Expr::MyInt(11))));
    assert_eq!(parse_my_int("11dog"), Ok(("dog", Expr::MyInt(11))));
}

#[test]
fn test_parse_my_var() {
    assert_eq!(parse_my_var("p"), Ok(("", Expr::MyVar("p".to_string()))));
    assert_eq!(
        parse_my_var("poo"),
        Ok(("", Expr::MyVar("poo".to_string())))
    );
    assert_eq!(
        parse_my_var("poo "),
        Ok((" ", Expr::MyVar("poo".to_string())))
    )
}

#[test]
fn test_parse_my_fn() {
    assert_eq!(
        parse_my_fn("\\a -> 1"),
        Ok((
            "",
            Expr::MyFunction("a".to_string(), Box::new(Expr::MyInt(1)))
        ))
    );
    assert_eq!(
        parse_my_fn("\\a -> \\b -> a"),
        Ok((
            "",
            Expr::MyFunction(
                "a".to_string(),
                Box::new(Expr::MyFunction(
                    "b".to_string(),
                    Box::new(Expr::MyVar("a".to_string()))
                ))
            )
        ))
    );
}
