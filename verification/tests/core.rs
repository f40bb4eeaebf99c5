use lambda::parse::{parse, tokenise};
use lambda::LambdaExpr;

fn var(name: &str, id: i16) -> LambdaExpr {
    LambdaExpr::Variable(name.to_string(), id)
}

fn lam(name: &str, id: i16, body: LambdaExpr) -> LambdaExpr {
    LambdaExpr::Lambda(name.to_string(), id, Box::new(body))
}

fn call(f: LambdaExpr, a: LambdaExpr) -> LambdaExpr {
    LambdaExpr::Call(Box::new(f), Box::new(a))
}

#[test]
fn test_parse() {
    let e = parse(&tokenise("\\x.(\\y z.(x y z))")).ok();
    assert_eq!(
        e,
        Some(lam(
            "x",
            0,
            lam(
                "y",
                0,
                lam("z", 0, call(call(var("x", 0), var("y", 0)), var("z", 0)))
            )
        ))
    );
}

#[test]
fn test_alpha_rename() {
    assert_eq!(
        call(
            lam(
                "x",
                0i16,
                call(lam("x", 0i16, var("x", 0i16)), var("x", 0i16))
            ),
            var("x", 0i16)
        )
        .alpha_rename(),
        call(
            lam(
                "x",
                1i16,
                call(lam("x", 2i16, var("x", 2i16)), var("x", 1i16))
            ),
            var("x", 0i16)
        )
    );
}

#[test]
fn test_beta_reduce() {
    assert_eq!(
        call(
            lam("x", 0i16, call(var("f", 0i16), var("x", 0i16))),
            var("a", 0i16)
        )
        .beta_reduce(),
        call(var("f", 0i16), var("a", 0i16))
    );
}

#[test]
fn test_reduce() {
    assert_eq!(
        call(
            lam(
                "f",
                0i16,
                call(
                    lam(
                        "f",
                        0i16,
                        lam("x", 0i16, call(var("f", 0i16), var("x", 0i16)))
                    ),
                    var("f", 0i16)
                )
            ),
            var("a", 0i16)
        )
        .reduce(),
        var("a", 0i16)
    );
}
