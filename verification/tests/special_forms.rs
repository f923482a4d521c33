use huckleberry::env::{Env, EnvRef, Store};
use huckleberry::error::HError;
use huckleberry::evaluator::{eval, get_first_method_matching};
use huckleberry::expr::{Arity, Expr, Fn};

fn core_env() -> (Store, EnvRef) {
    let mut store = Store::new();
    let env = Env::with_core_module().into_ref(&mut store);
    (store, env)
}

#[test]
fn test_defm() {
    let (mut store, env) = core_env();
    eval(&mut store, "(defm (fn [i] i) [to: n do: f] (println num))", env.clone_ref()).unwrap();
    let method = get_first_method_matching(&mut store, "to do", &Expr::boolean(true), env.clone_ref())
        .unwrap()
        .unwrap();
    assert_eq!(method.id, "to do");
    assert_eq!(method.arity, Arity::Count(2));
    assert_eq!(method.args, vec![Expr::Symbol("n".to_string()), Expr::Symbol("f".to_string())]);
    assert_eq!(
        method.selector,
        Box::new(Expr::Fn(Fn {
            id: "[Symbol(\"i\")]_[Symbol(\"i\")]".to_string(),
            arity: Arity::Count(1),
            args: vec![Expr::Symbol("i".to_string())],
            function: vec![Expr::Symbol("i".to_string())].into(),
            closure: env.clone_ref(),
        }))
    );
    assert_eq!(
        method.function,
        vec![Expr::list(&[Expr::Symbol("println".to_string()), Expr::Symbol("num".to_string())])]
    );
}

#[test]
fn test_defn() {
    let (mut store, env) = core_env();
    eval(&mut store, "(defn add [a b] (+ a b))", env.clone_ref()).unwrap();
    match env.get(&store, "add").unwrap() {
        Expr::Fn(fun) => {
            assert_eq!(fun.arity, Arity::Count(2));
            assert_eq!(fun.args, vec![Expr::Symbol("a".to_string()), Expr::Symbol("b".to_string())]);
            assert_eq!(
                fun.function,
                vec![Expr::list(&[
                    Expr::Symbol("+".to_string()),
                    Expr::Symbol("a".to_string()),
                    Expr::Symbol("b".to_string())
                ])]
            );
        }
        _ => panic!("Expected a function"),
    }
}

#[test]
fn special_forms_test_def() {
    let (mut store, env) = core_env();
    let result = eval(&mut store, "(var a 2) (+ a 1)", env);
    assert_eq!(result, Ok(Expr::number(3)));

    let (mut store, env) = core_env();
    let result = eval(&mut store, "(def a 2) (+ a 1)", env);
    assert_eq!(result, Ok(Expr::number(3)));
}

#[test]
fn special_forms_test_def_overwrite() {
    let (mut store, env) = core_env();
    eval(&mut store, "(var a 2) (var a (+ a 1))", env.clone_ref()).unwrap();
    assert_eq!(env.get(&store, "a"), Ok(Expr::number(3)));

    let (mut store, env) = core_env();
    eval(&mut store, "(def a 2) (def a (+ a 1))", env.clone_ref()).unwrap();
    assert_eq!(env.get(&store, "a"), Ok(Expr::number(3)));
}

#[test]
fn special_forms_test_if() {
    let (mut store, env) = core_env();
    assert_eq!(eval(&mut store, "(if (lt 1 2) 1 2)", env.clone_ref()), Ok(Expr::number(1)));
    assert_eq!(eval(&mut store, "(if (gt 1 2) 1 2)", env.clone_ref()), Ok(Expr::number(2)));
    assert_eq!(eval(&mut store, "(if false 1 2)", env.clone_ref()), Ok(Expr::number(2)));
    assert_eq!(eval(&mut store, "(if nil 1 2)", env.clone_ref()), Ok(Expr::number(2)));
    assert_eq!(eval(&mut store, "(if \"hello\" 1 2)", env.clone_ref()), Ok(Expr::number(1)));
}

#[test]
fn special_forms_test_set() {
    let (mut store, env) = core_env();
    eval(&mut store, "(var a 2) (set! a 1) a", env.clone_ref()).unwrap();
    assert_eq!(env.get(&store, "a"), Ok(Expr::number(1)));

    let (mut store, env) = core_env();
    eval(&mut store, "(def a 2) (set! a 1) a", env.clone_ref()).unwrap();
    assert_eq!(env.get(&store, "a"), Ok(Expr::number(1)));
}

#[test]
fn special_forms_test_set_error_on_unset() {
    let (mut store, env) = core_env();
    let result = eval(&mut store, "(set! a 1)", env.clone_ref());
    assert_eq!(result, Err(HError::SetUninitializedVar("a".to_string())));
}

#[test]
fn special_forms_test_creates_lambdas() {
    let (mut store, env) = core_env();
    eval(&mut store, "(var f (fn [a b] (+ a b)))", env.clone_ref()).unwrap();
    assert_eq!(eval(&mut store, "(f 1 2)", env.clone_ref()), Ok(Expr::number(3)));

    let (mut store, env) = core_env();
    eval(&mut store, "(def f (fn [a b] (+ a b)))", env.clone_ref()).unwrap();
    assert_eq!(eval(&mut store, "(f 1 2)", env.clone_ref()), Ok(Expr::number(3)));
}

#[test]
fn test_creates_variadic_lambdas() {
    let (mut store, env) = core_env();
    eval(&mut store, "(var f (fn [a &b] (println a b)))", env.clone_ref()).unwrap();
    match env.get(&store, "f").unwrap() {
        Expr::Fn(f) => {
            assert_eq!(f.arity, Arity::Range(1, usize::MAX));
        }
        _ => panic!("Expected a function"),
    }
    eval(&mut store, "(var f (fn [a b &c] (println a b)))", env.clone_ref()).unwrap();
    match env.get(&store, "f").unwrap() {
        Expr::Fn(f) => {
            assert_eq!(f.arity, Arity::Range(2, usize::MAX));
        }
        _ => panic!("Expected a function"),
    }
    eval(&mut store, "(var f (fn [&c] (println a b)))", env.clone_ref()).unwrap();
    match env.get(&store, "f").unwrap() {
        Expr::Fn(f) => {
            assert_eq!(f.arity, Arity::Range(0, usize::MAX));
        }
        _ => panic!("Expected a function"),
    }
}

#[test]
fn special_forms_test_empty_lambda_returns_nil() {
    let (mut store, env) = core_env();
    eval(&mut store, "(var f (fn []))", env.clone_ref()).unwrap();
    assert_eq!(eval(&mut store, "(f)", env.clone_ref()), Ok(Expr::Nil));

    let (mut store, env) = core_env();
    eval(&mut store, "(def f (fn []))", env.clone_ref()).unwrap();
    assert_eq!(eval(&mut store, "(f)", env.clone_ref()), Ok(Expr::Nil));
}

#[test]
fn fn_ampersand_must_precede_one_symbol() {
    let (mut store, env) = core_env();
    assert_eq!(
        eval(&mut store, "(fn [a & b c] a)", env),
        Err(HError::UnexpectedForm("In fn declaration, & can only proceed one symbol".to_string(), Expr::Ampersand))
    );
}

#[test]
fn fn_requires_an_argument_vector() {
    let (mut store, env) = core_env();
    assert_eq!(
        eval(&mut store, "(fn a a)", env),
        Err(HError::UnexpectedForm("Expected an argument vector".to_string(), Expr::symbol("a")))
    );
}

#[test]
fn fn_id_is_debug_text() {
    let (mut store, env) = core_env();
    match eval(&mut store, "(fn [i] i)", env).unwrap() {
        Expr::Fn(f) => assert_eq!(f.id, "[Symbol(\"i\")]_[Symbol(\"i\")]"),
        _ => panic!("Expected a function"),
    }
}

#[test]
fn defn_requires_a_symbol() {
    let (mut store, env) = core_env();
    assert_eq!(
        eval(&mut store, "(defn 1 [a] a)", env),
        Err(HError::UnexpectedForm("\"defn\" requires a symbol for name".to_string(), Expr::number(1)))
    );
}

#[test]
fn var_and_set_require_symbols() {
    let (mut store, env) = core_env();
    assert_eq!(
        eval(&mut store, "(var 1 2)", env),
        Err(HError::UnexpectedForm("Only symbols can be defined".to_string(), Expr::number(1)))
    );
    assert_eq!(
        eval(&mut store, "(set! :a 2)", env),
        Err(HError::UnexpectedForm("Only symbols can be set".to_string(), Expr::keyword(":a")))
    );
}

#[test]
fn var_with_one_argument_binds_nil() {
    let (mut store, env) = core_env();
    assert_eq!(eval(&mut store, "(var a) a", env), Ok(Expr::Nil));
}

#[test]
fn if_without_else_is_nil() {
    let (mut store, env) = core_env();
    assert_eq!(eval(&mut store, "(if false 1)", env), Ok(Expr::Nil));
}

#[test]
fn defm_checks_its_argument_vector() {
    let (mut store, env) = core_env();
    assert_eq!(
        eval(&mut store, "(defm number? x 1)", env),
        Err(HError::UnexpectedForm("Expected an argument vector".to_string(), Expr::symbol("x")))
    );
    assert_eq!(
        eval(&mut store, "(defm number? [] 1)", env),
        Err(HError::UnexpectedForm("Expected at least one argument".to_string(), Expr::vector(&[])))
    );
    assert_eq!(
        eval(&mut store, "(defm number? [a b c] 1)", env),
        Err(HError::UnexpectedForm(
            "Expected an even number of arguments".to_string(),
            Expr::vector(&[Expr::symbol("a"), Expr::symbol("b"), Expr::symbol("c")])
        ))
    );
}

#[test]
fn defm_without_body_returns_nil() {
    let (mut store, env) = core_env();
    assert_eq!(eval(&mut store, "(defm number? [nothing]) <3 nothing>", env), Ok(Expr::Nil));
}

#[test]
fn call_checks_fn_arity() {
    let (mut store, env) = core_env();
    eval(&mut store, "(defn two [a b] a)", env).unwrap();
    match eval(&mut store, "(two 1)", env) {
        Err(HError::InvalidArity(_, Arity::Count(2))) => {}
        other => panic!("unexpected {:?}", other),
    }
}

#[test]
fn fn_parameters_must_be_symbols() {
    let (mut store, env) = core_env();
    assert_eq!(
        eval(&mut store, "((fn [1] 1) 2)", env),
        Err(HError::UnexpectedForm("Only symbols are resolvable".to_string(), Expr::list(&[
            Expr::symbol("fn"),
            Expr::vector(&[Expr::number(1)]),
            Expr::number(1)
        ])))
    );
    eval(&mut store, "(var g (fn [1] 1))", env).unwrap();
    assert_eq!(
        eval(&mut store, "(g 2)", env),
        Err(HError::UnexpectedForm("Expected a symbol argument".to_string(), Expr::number(1)))
    );
}
