use huckleberry::env::{Env, EnvRef, Store};
use huckleberry::error::HError;
use huckleberry::evaluator::eval;
use huckleberry::expr::Expr;
use huckleberry::modules::{data_module, native_module};
use huckleberry::native::{check_num, is_truthy};
use huckleberry::special_forms::{method_args, method_id};

fn core_env() -> (Store, EnvRef) {
    let mut store = Store::new();
    let env = Env::with_core_module().into_ref(&mut store);
    (store, env)
}

fn with_module(module: Env) -> (Store, EnvRef) {
    let mut store = Store::new();
    let mut env = Env::new();
    env.merge(module);
    let env_ref = env.into_ref(&mut store);
    (store, env_ref)
}

#[test]
fn native_test_add_op() {
    let (mut store, env) = core_env();
    assert_eq!(eval(&mut store, "(+ 1 2 3 4 5)", env.clone_ref()), Ok(Expr::number(15)));
    assert_eq!(eval(&mut store, "(+ 1)", env), Ok(Expr::number(1)));
}

#[test]
fn native_test_sub_op() {
    let (mut store, env) = core_env();
    assert_eq!(eval(&mut store, "(- 1 2 3 4 5)", env), Ok(Expr::number(-13)));
}

#[test]
fn native_test_mul_op() {
    let (mut store, env) = core_env();
    assert_eq!(eval(&mut store, "(* 1 2 3 4 5)", env), Ok(Expr::number(120)));
}

#[test]
fn native_test_div_op() {
    let (mut store, env) = core_env();
    assert_eq!(eval(&mut store, "(/ 20 2 2)", env), Ok(Expr::number(5)));
}

#[test]
fn math_test_add_op() {
    let (mut store, env) = with_module(native_module());
    assert_eq!(eval(&mut store, "(+ 1 2 3 4 5)", env), Ok(Expr::number(15)));
}

#[test]
fn math_test_sub_op() {
    let (mut store, env) = with_module(native_module());
    assert_eq!(eval(&mut store, "(- 1 2 3 4 5)", env), Ok(Expr::number(-13)));
}

#[test]
fn math_test_mul_op() {
    let (mut store, env) = with_module(native_module());
    assert_eq!(eval(&mut store, "(* 1 2 3 4 5)", env), Ok(Expr::number(120)));
}

#[test]
fn math_test_div_op() {
    let (mut store, env) = with_module(native_module());
    assert_eq!(eval(&mut store, "(/ 20 2 2)", env), Ok(Expr::number(5)));
}

fn check_eq(store: &mut Store, env: EnvRef) {
    let t = Ok(Expr::boolean(true));
    assert_eq!(eval(store, "(= 1 1)", env), t);
    assert_eq!(eval(store, "(= \"hello\" \"hello\")", env), t);
    assert_eq!(eval(store, "(= false false)", env), t);
    assert_eq!(eval(store, "(= :hello :hello)", env), t);
    assert_eq!(eval(store, "(= [1 2] [1 2])", env), t);
    assert_eq!(eval(store, "(= {\"key\" :value} {\"key\" :value})", env), t);
}

fn check_not_eq(store: &mut Store, env: EnvRef) {
    let f = Ok(Expr::boolean(false));
    assert_eq!(eval(store, "(!= 1 1)", env), f);
    assert_eq!(eval(store, "(!= \"hello\" \"hello\")", env), f);
    assert_eq!(eval(store, "(!= false false)", env), f);
    assert_eq!(eval(store, "(!= :hello :hello)", env), f);
    assert_eq!(eval(store, "(!= [1 2] [1 2])", env), f);
    assert_eq!(eval(store, "(!= {\"key\" :value} {\"key\" :value})", env), f);
}

#[test]
fn native_test_eq() {
    let (mut store, env) = core_env();
    check_eq(&mut store, env);
}

#[test]
fn native_test_not_eq() {
    let (mut store, env) = core_env();
    check_not_eq(&mut store, env);
}

#[test]
fn logic_test_eq() {
    let (mut store, env) = with_module(native_module());
    check_eq(&mut store, env);
}

#[test]
fn logic_test_not_eq() {
    let (mut store, env) = with_module(native_module());
    check_not_eq(&mut store, env);
}

#[test]
fn native_test_lt_op() {
    let (mut store, env) = core_env();
    assert_eq!(eval(&mut store, "(lt 1 2 3 4 5)", env), Ok(Expr::boolean(true)));
    assert_eq!(eval(&mut store, "(lt 5 4)", env), Ok(Expr::boolean(false)));
}

#[test]
fn native_test_lt_eq_op() {
    let (mut store, env) = core_env();
    assert_eq!(eval(&mut store, "(lte 2 2)", env), Ok(Expr::boolean(true)));
    assert_eq!(eval(&mut store, "(lte 2 3)", env), Ok(Expr::boolean(true)));
    assert_eq!(eval(&mut store, "(lte 5 4)", env), Ok(Expr::boolean(false)));
}

#[test]
fn native_test_gt_op() {
    let (mut store, env) = core_env();
    assert_eq!(eval(&mut store, "(gt 5 4 3 2 1)", env), Ok(Expr::boolean(true)));
    assert_eq!(eval(&mut store, "(gt 4 5)", env), Ok(Expr::boolean(false)));
}

#[test]
fn native_test_gt_eq_op() {
    let (mut store, env) = core_env();
    assert_eq!(eval(&mut store, "(gte 2 2)", env), Ok(Expr::boolean(true)));
    assert_eq!(eval(&mut store, "(gte 3 2)", env), Ok(Expr::boolean(true)));
    assert_eq!(eval(&mut store, "(gte 4 5)", env), Ok(Expr::boolean(false)));
}

fn check_get(store: &mut Store, env: EnvRef) {
    assert_eq!(eval(store, "(get {:hello 3} :hello)", env), Ok(Expr::number(3)));
    assert_eq!(eval(store, "(get {:hello 3} :world)", env), Ok(Expr::nil()));
    assert_eq!(eval(store, "(get [1 2 3] 2)", env), Ok(Expr::number(3)));
    assert_eq!(eval(store, "(get [1 2 3] 3)", env), Ok(Expr::nil()));
}

fn check_range(store: &mut Store, env: EnvRef) {
    assert_eq!(
        eval(store, "(range 0 3)", env),
        Ok(Expr::vector(&[Expr::number(0), Expr::number(1), Expr::number(2)]))
    );
}

fn check_number_q(store: &mut Store, env: EnvRef) {
    assert_eq!(
        eval(store, "[(number? 3.2) (number? \"a\")]", env),
        Ok(Expr::vector(&[Expr::boolean(true), Expr::boolean(false)]))
    );
}

#[test]
fn native_test_get() {
    let (mut store, env) = core_env();
    check_get(&mut store, env);
}

#[test]
fn native_test_range() {
    let (mut store, env) = core_env();
    check_range(&mut store, env);
}

#[test]
fn native_test_number_q() {
    let (mut store, env) = core_env();
    check_number_q(&mut store, env);
}

#[test]
fn data_test_get() {
    let (mut store, env) = with_module(data_module());
    check_get(&mut store, env);
}

#[test]
fn data_test_range() {
    let (mut store, env) = with_module(data_module());
    check_range(&mut store, env);
}

#[test]
fn data_test_number_q() {
    let (mut store, env) = with_module(data_module());
    check_number_q(&mut store, env);
}

#[test]
fn arithmetic_errors() {
    let (mut store, env) = core_env();
    assert_eq!(eval(&mut store, "(/ 1 0)", env), Err(HError::ArithmeticError("Division by zero".to_string())));
    assert_eq!(
        eval(&mut store, "(* 9223372036854775807 2)", env),
        Err(HError::ArithmeticError("Number out of range".to_string()))
    );
    assert_eq!(eval(&mut store, "(+ 1 :a)", env), Err(HError::InvalidType("+".to_string(), Expr::keyword(":a"))));
    assert_eq!(eval(&mut store, "(- \"s\")", env), Err(HError::InvalidType("-".to_string(), Expr::string("s"))));
    assert_eq!(eval(&mut store, "(- 5)", env), Ok(Expr::number(5)));
}

#[test]
fn comparison_errors_and_short_circuit() {
    let (mut store, env) = core_env();
    assert_eq!(eval(&mut store, "(lt 1 nil)", env), Err(HError::InvalidType("lt".to_string(), Expr::nil())));
    assert_eq!(eval(&mut store, "(lt 2 1 nil)", env), Ok(Expr::boolean(false)));
    assert_eq!(eval(&mut store, "(lt 1 3 2)", env), Ok(Expr::boolean(true)));
    assert_eq!(eval(&mut store, "(lte 0.5 1 (/ 1 2))", env), Ok(Expr::boolean(true)));
}

#[test]
fn equality_against_every_other_value() {
    let (mut store, env) = core_env();
    assert_eq!(eval(&mut store, "(= 1 1 2)", env), Ok(Expr::boolean(false)));
    assert_eq!(eval(&mut store, "(!= 1 2 3)", env), Ok(Expr::boolean(true)));
    assert_eq!(eval(&mut store, "(!= 1 2 1)", env), Ok(Expr::boolean(false)));
    assert_eq!(eval(&mut store, "(= {:a 1 :b 2} {:b 2 :a 1})", env), Ok(Expr::boolean(true)));
    assert_eq!(eval(&mut store, "(= 1 1.0)", env), Ok(Expr::boolean(true)));
}

#[test]
fn get_errors_and_indices() {
    let (mut store, env) = core_env();
    assert_eq!(
        eval(&mut store, "(get 1 2)", env),
        Err(HError::UnexpectedForm("Type does not support `get`".to_string(), Expr::number(1)))
    );
    assert_eq!(
        eval(&mut store, "(get [1 2] :a)", env),
        Err(HError::UnexpectedForm("Invalid vector index".to_string(), Expr::keyword(":a")))
    );
    assert_eq!(eval(&mut store, "(get [1 2] 1.9)", env), Ok(Expr::number(2)));
    assert_eq!(eval(&mut store, "(get [1 2] (- 0 3))", env), Ok(Expr::number(1)));
}

#[test]
fn range_errors_and_empty() {
    let (mut store, env) = core_env();
    assert_eq!(eval(&mut store, "(range 3 1)", env), Ok(Expr::vector(&[])));
    assert_eq!(
        eval(&mut store, "(range 1 :b)", env),
        Err(HError::UnexpectedForm("Invalid range".to_string(), Expr::vector(&[Expr::number(1), Expr::keyword(":b")])))
    );
    assert_eq!(eval(&mut store, "(range 0.5 2.9)", env), Ok(Expr::vector(&[Expr::number(0), Expr::number(1)])));
}

#[test]
fn meta_is_empty_map_or_nil() {
    let (mut store, env) = core_env();
    assert_eq!(eval(&mut store, "(meta [1])", env), Ok(Expr::map(&[])));
    assert_eq!(eval(&mut store, "(meta 1)", env), Ok(Expr::nil()));
}

#[test]
fn utils_truthiness_and_numbers() {
    assert!(!is_truthy(&Expr::nil()));
    assert!(!is_truthy(&Expr::boolean(false)));
    assert!(is_truthy(&Expr::number(0)));
    assert!(is_truthy(&Expr::string("")));
    assert!(check_num(&Expr::number(2), "f").is_ok());
    assert_eq!(check_num(&Expr::nil(), "f").map(|_| ()), Err(HError::InvalidType("f".to_string(), Expr::nil())));
}

#[test]
fn utils_method_id_and_args() {
    let raw = vec![Expr::symbol("to"), Expr::symbol("max"), Expr::symbol("do"), Expr::symbol("f")];
    assert_eq!(method_id(&raw), "to do".to_string());
    assert_eq!(method_args(&raw), vec![Expr::symbol("max"), Expr::symbol("f")]);
    assert_eq!(method_id(&vec![Expr::symbol("size")]), "size".to_string());
    assert_eq!(method_args(&vec![Expr::symbol("size")]), vec![]);
}

#[test]
fn modules_hold_their_functions() {
    let (mut store, env) = with_module(huckleberry::modules::io_module());
    assert_eq!(eval(&mut store, "(print 1 2) (println)", env), Ok(Expr::Nil));
    assert_eq!(store.take_output(), "12\n".to_string());
    assert_eq!(eval(&mut store, "(+ 1 2)", env), Err(HError::UnboundVar("+".to_string())));

    let (mut store, env) = with_module(huckleberry::modules::special_forms_module());
    assert_eq!(eval(&mut store, "(var a :x) (if a a 2)", env), Ok(Expr::keyword(":x")));
    assert_eq!(eval(&mut store, "(get [1] 0)", env), Err(HError::UnboundVar("get".to_string())));
}

#[test]
fn core_module_defines_to_method() {
    let (mut store, env) = with_module(huckleberry::modules::core_module());
    assert_eq!(
        eval(&mut store, "<1 to: 4>", env),
        Ok(Expr::vector(&[Expr::number(1), Expr::number(2), Expr::number(3)]))
    );
}

#[test]
fn map_lookup_agrees_with_equality() {
    let (mut store, env) = core_env();
    assert_eq!(eval(&mut store, "(get {[1 2] :a} [1 2])", env.clone_ref()), Ok(Expr::keyword(":a")));
    assert_eq!(eval(&mut store, "(get {{:x 1 :y 2} :b} {:y 2 :x 1})", env.clone_ref()), Ok(Expr::keyword(":b")));
    assert_eq!(eval(&mut store, "(= {:a 1 :b 2} {:b 2 :a 1})", env.clone_ref()), Ok(Expr::boolean(true)));
    assert_eq!(eval(&mut store, "(get {1 :one} 1.0)", env.clone_ref()), Ok(Expr::keyword(":one")));
    assert_eq!(eval(&mut store, "(get {1 :one} 2)", env), Ok(Expr::nil()));
}

#[test]
fn arithmetic_keeps_lowest_terms() {
    let (mut store, env) = core_env();
    let sum = format!("(+ {})", vec!["0.1"; 30].join(" "));
    assert_eq!(eval(&mut store, &sum, env.clone_ref()), Ok(Expr::number(3)));
    let product = format!("(* {} 1024 1024)", vec!["0.5"; 20].join(" "));
    assert_eq!(eval(&mut store, &product, env.clone_ref()), Ok(Expr::number(1)));
    let q = eval(&mut store, "(/ 6 4)", env).unwrap();
    match q {
        Expr::Number(n) => {
            assert_eq!(n.numerator(), 3);
            assert_eq!(n.denominator(), 2);
        },
        _ => panic!("not a number"),
    }
}
