use lambda::parse::{parse, tokenise};
use lambda::LambdaExpr;

fn var(name: &str, id: i16) -> LambdaExpr {
    LambdaExpr::Variable(name.to_string(), id)
}

fn lam(name: &str, id: i16, body: LambdaExpr) -> LambdaExpr {
    LambdaExpr::Lambda(name.to_string(), id, Box::new(body))
}

fn call(f: LambdaExpr, a: LambdaExpr) -> LambdaExpr {
    LambdaExpr::Call(Box::new(f), Box::new(a))
}

#[test]
fn test_tokenise_splits_specials_and_spaces() {
    let toks = tokenise("\\xy.(xy λz)");
    assert_eq!(toks, vec!["\\", "xy", ".", "(", "xy", "λ", "z", ")"]);
}

#[test]
fn test_tokenise_empty_and_whitespace() {
    assert_eq!(tokenise(""), Vec::<String>::new());
    assert_eq!(tokenise(" \t\r\n"), Vec::<String>::new());
    assert_eq!(tokenise("  ab  cd "), vec!["ab", "cd"]);
}

#[test]
fn test_parse_empty_is_nothing() {
    assert_eq!(parse(&tokenise("")), Ok(LambdaExpr::Nothing));
}

#[test]
fn test_parse_application_left_associative() {
    assert_eq!(
        parse(&tokenise("a b c")),
        Ok(call(call(var("a", 0), var("b", 0)), var("c", 0)))
    );
}

#[test]
fn test_parse_unexpected_dot() {
    assert_eq!(
        parse(&tokenise(". x")),
        Err(("unexpected `.`".to_string(), LambdaExpr::Nothing))
    );
}

#[test]
fn test_parse_unexpected_close() {
    assert_eq!(
        parse(&tokenise("a )")),
        Err(("unexpected `)`".to_string(), var("a", 0)))
    );
}

#[test]
fn test_parse_missing_dot() {
    assert_eq!(
        parse(&tokenise("\\x y")),
        Err((
            "expected `.`, found `end of file`".to_string(),
            LambdaExpr::Nothing
        ))
    );
}

#[test]
fn test_parse_constant_true() {
    assert_eq!(
        parse(&tokenise("T")),
        Ok(lam("x", 0, lam("y", 0, var("x", 0))))
    );
}

#[test]
fn test_parse_numeral_two() {
    assert_eq!(
        parse(&tokenise("2")),
        Ok(lam(
            "s",
            0,
            lam("z", 0, call(var("s", 0), call(var("s", 0), var("z", 0))))
        ))
    );
}

#[test]
fn test_parse_numeral_zero() {
    assert_eq!(parse(&tokenise("0")), Ok(lam("s", 0, lam("z", 0, var("z", 0)))));
}

#[test]
fn test_parse_numeral_too_big_is_variable() {
    // A digit string whose value does not fit the numeral range stays a
    // plain variable name.
    let big = "99999999999999999999999999";
    assert_eq!(parse(&tokenise(big)), Ok(var(big, 0)));
}

#[test]
fn test_parse_group_closes_on_paren() {
    // The `)` that ends a group surfaces as an interceptable failure, and
    // the pending `(` turns the partial term into the group's value.
    assert_eq!(
        parse(&tokenise("(\\x.y) z")),
        Ok(call(lam("x", 0, var("y", 0)), var("z", 0)))
    );
}

#[test]
fn test_parse_empty_group() {
    assert_eq!(parse(&tokenise("()")), Ok(LambdaExpr::Nothing));
}

#[test]
fn test_parse_unclosed_group() {
    // A group that runs off the end of the input keeps what it parsed.
    assert_eq!(parse(&tokenise("(x")), Ok(var("x", 0)));
}

#[test]
fn test_eta_convert() {
    assert_eq!(
        lam("x", 0i16, call(var("f", 0i16), var("x", 0i16))).eta_convert(),
        var("f", 0i16)
    );
}

#[test]
fn test_eta_convert_self_application_defect() {
    // The documented defect, reproduced on purpose: the rewrite does not
    // ask that the function part be free of the bound variable.
    assert_eq!(
        lam("x", 0i16, call(var("x", 0i16), var("x", 0i16))).eta_convert(),
        var("x", 0i16)
    );
}

#[test]
fn test_reduce_idempotent_on_sample() {
    let t = call(
        lam(
            "f",
            0i16,
            call(
                lam(
                    "f",
                    0i16,
                    lam("x", 0i16, call(var("f", 0i16), var("x", 0i16))),
                ),
                var("f", 0i16),
            ),
        ),
        var("a", 0i16),
    );
    let once = t.clone().reduce();
    assert_eq!(once.clone().reduce(), once);
}

#[test]
fn test_into_str_display_form() {
    let t = lam("x", 0, call(var("x", 0), var("y", 0)));
    assert_eq!(t.into_str(), "(λx.(x y))");
    assert_eq!(LambdaExpr::Nothing.into_str(), "");
}

#[test]
fn test_repr_reconstruction_form() {
    assert_eq!(var("a", 3).repr(), "Variable(\"a\".to_string(), 3i16)");
    assert_eq!(
        lam("x", -2, var("x", 0)).repr(),
        "Lambda(\"x\".to_string(), -2i16, box Variable(\"x\".to_string(), 0i16))"
    );
    assert_eq!(
        call(var("a", 0), var("b", 0)).repr(),
        "Call(box Variable(\"a\".to_string(), 0i16), box Variable(\"b\".to_string(), 0i16))"
    );
}

#[test]
fn test_print_parse_round_trip() {
    let t = lam("x", 0, call(call(var("x", 0), var("plum", 0)), var("q", 0)));
    let printed = t.into_str();
    assert_eq!(parse(&tokenise(&printed)), Ok(t));
}

#[test]
fn test_reduce_boolean_and() {
    // (& T) F reduces to F.
    let reduced = parse(&tokenise("& T F")).unwrap().reduce();
    let f = parse(&tokenise("F")).unwrap().alpha_rename();
    assert_eq!(reduced.into_str(), f.into_str());
}
