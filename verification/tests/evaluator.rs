use huckleberry::env::{Env, EnvRef, Store};
use huckleberry::error::HError;
use huckleberry::evaluator::{eval, eval_expr, eval_exprs, resolve, resolve_args};
use huckleberry::expr::{Arity, Expr};

fn core_env() -> (Store, EnvRef) {
    let mut store = Store::new();
    let env = Env::with_core_module().into_ref(&mut store);
    (store, env)
}

#[test]
fn evaluator_test_calls_native_callable() {
    let (mut store, env) = core_env();
    assert_eq!(eval(&mut store, "(+ 1 (/ (* 3 (- 5 2)) 3))", env).unwrap(), Expr::number(4));
}

#[test]
fn interpreter_test_calls_native_callable() {
    let (mut store, env) = core_env();
    assert_eq!(eval(&mut store, "(+ 1 (/ (* 3 (- 5 2)) 3))", env).unwrap(), Expr::number(4));
}

#[test]
fn evaluator_test_calls_fn() {
    let (mut store, env) = core_env();
    eval(&mut store, "(def f (fn [a b] (+ a b)))", env.clone_ref()).unwrap();
    assert_eq!(eval(&mut store, "(f 1 2)", env.clone_ref()), Ok(Expr::number(3)));
}

#[test]
fn interpreter_test_calls_fn() {
    let (mut store, env) = core_env();
    eval(&mut store, "(def f (fn [a b] (+ a b)))", env.clone_ref()).unwrap();
    assert_eq!(eval(&mut store, "(f 1 2)", env.clone_ref()), Ok(Expr::number(3)));
}

#[test]
fn test_calls_variadic_fn() {
    let (mut store, env) = core_env();
    eval(&mut store, "(def f (fn [a &b] [a b]))", env.clone_ref()).unwrap();
    assert_eq!(
        eval(&mut store, "(f 1 2 3 4)", env.clone_ref()),
        Ok(Expr::vector(&[
            Expr::number(1),
            Expr::vector(&[Expr::number(2), Expr::number(3), Expr::number(4)])
        ]))
    );
    eval(&mut store, "(def f (fn [&a] a))", env.clone_ref()).unwrap();
    assert_eq!(
        eval(&mut store, "(f 1 2 3 4)", env.clone_ref()),
        Ok(Expr::vector(&[Expr::number(1), Expr::number(2), Expr::number(3), Expr::number(4)]))
    );
}

#[test]
fn evaluator_test_checks_arity() {
    let (mut store, env) = core_env();
    assert_eq!(
        eval(&mut store, "(def a 3 4)", env.clone_ref()),
        Err(HError::InvalidArity("def".to_string(), Arity::Range(1, 2)))
    );
    assert_eq!(
        eval(&mut store, "(set! a)", env.clone_ref()),
        Err(HError::InvalidArity("set!".to_string(), Arity::Count(2)))
    );
}

#[test]
fn interpreter_test_checks_arity() {
    let (mut store, env) = core_env();
    assert_eq!(
        eval(&mut store, "(def a 3 4)", env.clone_ref()),
        Err(HError::InvalidArity("def".to_string(), Arity::Range(1, 2)))
    );
    assert_eq!(
        eval(&mut store, "(set! a)", env.clone_ref()),
        Err(HError::InvalidArity("set!".to_string(), Arity::Count(2)))
    );
}

#[test]
fn test_resolves_map() {
    let (mut store, env) = core_env();
    assert_eq!(
        eval(&mut store, "{:a (+ 1 2)}", env.clone_ref()),
        Ok(Expr::map(&[(Expr::keyword(":a"), Expr::number(3)),]))
    );
}

#[test]
fn test_resolves_vector() {
    let (mut store, env) = core_env();
    assert_eq!(
        eval(&mut store, "[1 (+ 1 2)]", env.clone_ref()),
        Ok(Expr::vector(&[Expr::number(1), Expr::number(3),]))
    );
}

#[test]
fn eval_empty_list_is_an_error() {
    let (mut store, env) = core_env();
    assert_eq!(
        eval(&mut store, "()", env),
        Err(HError::InvalidEmptyList("An empty list is invalid. Should this be a function call?".to_string()))
    );
}

#[test]
fn eval_head_must_be_a_symbol() {
    let (mut store, env) = core_env();
    assert_eq!(
        eval(&mut store, "(1 2)", env),
        Err(HError::UnexpectedForm("Only symbols are resolvable".to_string(), Expr::number(1)))
    );
}

#[test]
fn eval_calling_a_value_is_an_error() {
    let (mut store, env) = core_env();
    assert_eq!(eval(&mut store, "(var x 5) (x)", env), Err(HError::NotAFunction("5".to_string())));
}

#[test]
fn eval_unbound_symbol() {
    let (mut store, env) = core_env();
    assert_eq!(eval(&mut store, "nope", env), Err(HError::UnboundVar("nope".to_string())));
    assert_eq!(eval(&mut store, "(nope 1)", env), Err(HError::UnboundVar("nope".to_string())));
}

#[test]
fn eval_empty_program_is_nil() {
    let (mut store, env) = core_env();
    assert_eq!(eval(&mut store, "", env), Ok(Expr::Nil));
}

#[test]
fn eval_recursion_runs_deep() {
    let (mut store, env) = core_env();
    let program = "(defn count [n] (if (gt n 0) (+ 1 (count (- n 1))) 0)) (count 60)";
    assert_eq!(eval(&mut store, program, env), Ok(Expr::number(60)));
    assert_eq!(store.frame_count(), 1);
}

#[test]
fn eval_recursive_function() {
    let (mut store, env) = core_env();
    let program = "(defn fact [n] (if (lte n 1) 1 (* n (fact (- n 1))))) (fact 10)";
    assert_eq!(eval(&mut store, program, env), Ok(Expr::number(3628800)));
}

#[test]
fn eval_fn_scope_is_the_callers() {
    let (mut store, env) = core_env();
    let program = "(var x 1) (defn show [] x) (defn wrap [x] (show)) (wrap 7)";
    assert_eq!(eval(&mut store, program, env), Ok(Expr::number(7)));
}

#[test]
fn eval_prints_to_the_store() {
    let (mut store, env) = core_env();
    assert_eq!(eval(&mut store, "(print 1 \"a\" :k) (println [1 2] {:x nil})", env), Ok(Expr::Nil));
    assert_eq!(store.take_output(), "1a:k[1 2]{:x nil}\n".to_string());
    assert_eq!(store.output(), "".to_string());
}

#[test]
fn eval_fractions_are_exact() {
    let (mut store, env) = core_env();
    assert_eq!(eval(&mut store, "(+ 0.1 0.2)", env), Ok(Expr::ratio(3, 10)));
    assert_eq!(eval(&mut store, "(= (/ 1 3) (/ 2 6))", env), Ok(Expr::boolean(true)));
    eval(&mut store, "(println (/ 1 4) \" \" (/ (- 0 7) 2) \" \" (/ 1 3))", env).unwrap();
    assert_eq!(store.take_output(), "0.25 -3.5 0.3333333333333333\n".to_string());
}

#[test]
fn eval_expr_and_eval_exprs() {
    let (mut store, env) = core_env();
    let sum = Expr::list(&[Expr::symbol("+"), Expr::number(2), Expr::number(3)]);
    assert_eq!(eval_expr(&mut store, &sum, env), Ok(Expr::number(5)));
    let program = vec![Expr::list(&[Expr::symbol("var"), Expr::symbol("y"), Expr::number(4)]), Expr::symbol("y")];
    assert_eq!(eval_exprs(&mut store, &program, env), Ok(Expr::number(4)));
    assert_eq!(eval_exprs(&mut store, &vec![], env), Ok(Expr::Nil));
}

#[test]
fn resolve_only_symbols() {
    let (store, env) = core_env();
    assert!(matches!(resolve(&store, &Expr::symbol("+"), env), Ok(Expr::NativeFn(_))));
    assert_eq!(
        resolve(&store, &Expr::number(1), env),
        Err(HError::UnexpectedForm("Only symbols are resolvable".to_string(), Expr::number(1)))
    );
}

#[test]
fn resolve_args_evaluates_in_order() {
    let (mut store, env) = core_env();
    let args = vec![
        Expr::list(&[Expr::symbol("var"), Expr::symbol("z"), Expr::number(1)]),
        Expr::symbol("z"),
        Expr::list(&[Expr::symbol("+"), Expr::symbol("z"), Expr::number(1)]),
    ];
    assert_eq!(
        resolve_args(&mut store, &args, env),
        Ok(vec![Expr::Nil, Expr::number(1), Expr::number(2)])
    );
}

#[test]
fn eval_method_expression() {
    let (mut store, env) = core_env();
    assert_eq!(
        eval(&mut store, "<0 to: 3>", env),
        Ok(Expr::vector(&[Expr::number(0), Expr::number(1), Expr::number(2)]))
    );
    assert_eq!(eval(&mut store, "<\"a\" to: 3>", env), Err(HError::UnboundMethod("to".to_string())));
    assert_eq!(eval(&mut store, "<1 frobnicate>", env), Err(HError::UnboundMethod("frobnicate".to_string())));
}

#[test]
fn eval_method_dispatch_picks_first_true_selector() {
    let (mut store, env) = core_env();
    let program = "(defm (fn [n] (lt n 18)) [is-under-18?] true) \
                   (defm (fn [n] (gte n 18)) [is-under-18?] false) \
                   [<17 is-under-18?> <18 is-under-18?>]";
    assert_eq!(
        eval(&mut store, program, env),
        Ok(Expr::vector(&[Expr::boolean(true), Expr::boolean(false)]))
    );
}

#[test]
fn eval_method_with_arguments_and_this() {
    let (mut store, env) = core_env();
    let program = "(defm number? [plus: a times: b] (* (+ this a) b)) <2 plus: 3 times: 4>";
    assert_eq!(eval(&mut store, program, env), Ok(Expr::number(20)));
}

#[test]
fn eval_empty_method_list_is_an_error() {
    let (mut store, env) = core_env();
    assert_eq!(
        eval(&mut store, "<>", env),
        Err(HError::InvalidEmptyList("An empty method list is invalid. Should this be a method call?".to_string()))
    );
}

#[test]
fn eval_deep_nesting_has_no_fixed_bound() {
    let (mut store, env) = core_env();
    let depth = 120;
    let text = format!("{}1{}", "[".repeat(depth), "]".repeat(depth));
    let value = eval(&mut store, &text, env).unwrap();
    let mut expected = Expr::number(1);
    for _ in 0..depth {
        expected = Expr::vector(&[expected]);
    }
    assert_eq!(value, expected);
    let condition = format!("(if {} :yes :no)", text);
    assert_eq!(eval(&mut store, &condition, env), Ok(Expr::keyword(":yes")));
}

#[test]
fn maps_keep_keys_in_order() {
    let (mut store, env) = core_env();
    eval(&mut store, "(println {:b 1 :a 2} \" \" {2 :x 1 :y} \" \" {:k 1 \"s\" 2 3 3})", env).unwrap();
    assert_eq!(store.take_output(), "{:a 2 :b 1} {1 :y 2 :x} {3 3 s 2 :k 1}\n".to_string());
    assert_eq!(eval(&mut store, "(get {:a 1 :b 2 :a 3} :a)", env), Ok(Expr::number(3)));
}

#[test]
fn errors_have_debug_text() {
    assert_eq!(
        HError::InvalidArity("def".to_string(), Arity::Range(1, 2)).debug_string(),
        "InvalidArity(\"def\", Range(1, 2))".to_string()
    );
    assert_eq!(
        HError::UnexpectedForm("Only symbols can be set".to_string(), Expr::keyword(":a")).debug_string(),
        "UnexpectedForm(\"Only symbols can be set\", Keyword(\":a\"))".to_string()
    );
    assert_eq!(HError::RecursionLimit.debug_string(), "RecursionLimit".to_string());
    assert_eq!(
        HError::UnboundVar("say \"hi\"".to_string()).debug_string(),
        "UnboundVar(\"say \\\"hi\\\"\")".to_string()
    );
}

#[test]
fn values_evaluate_to_themselves() {
    let (mut store, env) = core_env();
    assert_eq!(eval(&mut store, "1.5", env), Ok(Expr::ratio(3, 2)));
    assert_eq!(eval(&mut store, "\"s\"", env), Ok(Expr::string("s")));
    assert_eq!(eval(&mut store, ":k", env), Ok(Expr::keyword(":k")));
    assert_eq!(eval(&mut store, "true", env), Ok(Expr::boolean(true)));
    assert_eq!(eval(&mut store, "nil", env), Ok(Expr::nil()));
    assert_eq!(eval(&mut store, "&", env), Ok(Expr::ampersand()));
    assert_eq!(store.frame_count(), 1);
}

#[test]
fn printed_output_survives_errors() {
    let (mut store, env) = core_env();
    assert_eq!(eval(&mut store, "(print :before) (+ 1 nil)", env), Err(HError::InvalidType("+".to_string(), Expr::nil())));
    assert_eq!(store.take_output(), ":before".to_string());
}

#[test]
fn set_changes_only_its_variable() {
    let (mut store, env) = core_env();
    eval(&mut store, "(var a 1) (var b 2) (defn f [] (set! a 10)) (f)", env).unwrap();
    assert_eq!(env.get(&store, "a"), Ok(Expr::number(10)));
    assert_eq!(env.get(&store, "b"), Ok(Expr::number(2)));
}

#[test]
fn selectors_receive_the_receiver_as_it_came() {
    let (mut store, env) = core_env();
    let program = "(defn pack [& xs] xs) \
                   (defm (fn [v] true) [at: i] (get this i)) \
                   <(pack (println 1)) at: 0>";
    assert_eq!(
        eval(&mut store, program, env),
        Ok(Expr::list(&[Expr::symbol("println"), Expr::number(1)]))
    );
    assert_eq!(store.take_output(), "".to_string());
}

#[test]
fn value_selectors_see_the_receiver() {
    let (mut store, env) = core_env();
    let program = "(defm number? [twice] (* this 2)) (defm (fn [v] (= v [1])) [twice] :vec) \
                   [<3 twice> <[1] twice>]";
    assert_eq!(
        eval(&mut store, program, env),
        Ok(Expr::vector(&[Expr::number(6), Expr::keyword(":vec")]))
    );
}

#[test]
fn if_evaluates_only_the_chosen_branch() {
    let (mut store, env) = core_env();
    assert_eq!(eval(&mut store, "(if true 1 (println :no))", env.clone_ref()), Ok(Expr::number(1)));
    assert_eq!(eval(&mut store, "(if false (println :no) 2)", env.clone_ref()), Ok(Expr::number(2)));
    assert_eq!(eval(&mut store, "(if false (println :no))", env.clone_ref()), Ok(Expr::Nil));
    assert_eq!(store.take_output(), "".to_string());
    assert_eq!(
        eval(&mut store, "(if true)", env),
        Err(HError::InvalidArity("if".to_string(), Arity::Range(2, 3)))
    );
}

#[test]
fn texts_with_many_lines_scan() {
    let (mut store, env) = core_env();
    let text = format!("{}(+ 1 2)", "\n".repeat(1000));
    assert_eq!(eval(&mut store, &text, env), Ok(Expr::number(3)));
}
