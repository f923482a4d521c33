use huckleberry::env::{Env, EnvRef, Store};
use huckleberry::error::HError;
use huckleberry::expr::Expr;

#[test]
fn env_test_can_define_variables() {
    let store = Store::new();
    let mut env = Env::new();
    env.define("key", Expr::string("value"));
    assert_eq!(env.get(&store, "key").unwrap(), Expr::string("value"));
}

#[test]
fn env_test_can_overwrite_vars() {
    let store = Store::new();
    let mut env = Env::new();
    env.define("key", Expr::string("value"));
    env.define("key", Expr::number(1));
    assert_eq!(env.get(&store, "key").unwrap(), Expr::number(1));
}

#[test]
fn test_can_set_vars() {
    let mut store = Store::new();
    let mut env = Env::new();
    env.define("key", Expr::string("value"));
    let env_ref = env.into_ref(&mut store);
    let mut nested_env = Env::extend(env_ref.clone_ref());
    nested_env.set(&mut store, "key", Expr::number(1)).unwrap();
    assert_eq!(env_ref.get(&store, "key").unwrap(), Expr::number(1));
}

#[test]
fn env_test_can_extend_an_environment() {
    let mut store = Store::new();
    let mut env = Env::new();
    env.define("a", Expr::string("a"));
    env.define("b", Expr::string("b"));
    let env_ref = env.into_ref(&mut store);
    {
        let mut extended_env = Env::extend(env_ref.clone_ref());
        extended_env.define("a", Expr::string("a_shadow"));
        assert_eq!(extended_env.get(&store, "a").unwrap(), Expr::string("a_shadow"));
        assert_eq!(extended_env.get(&store, "b").unwrap(), Expr::string("b"));
    }
    assert_eq!(env_ref.get(&store, "a").unwrap(), Expr::string("a"));
}

#[test]
fn environment_test_can_define_variables() {
    let store = Store::new();
    let mut env = Env::new();
    env.define("key", Expr::string("value"));
    assert_eq!(env.get(&store, "key").unwrap(), Expr::string("value"));
}

#[test]
fn environment_test_can_overwrite_vars() {
    let store = Store::new();
    let mut env = Env::new();
    env.define("key", Expr::string("value"));
    env.define("key", Expr::number(1));
    assert_eq!(env.get(&store, "key").unwrap(), Expr::number(1));
}

#[test]
fn environment_test_can_extend_an_environment() {
    let mut store = Store::new();
    let mut env = Env::new();
    env.define("a", Expr::string("a"));
    env.define("b", Expr::string("b"));
    let env_ref = env.into_ref(&mut store);
    {
        let mut extended_env = Env::extend(env_ref.clone_ref());
        extended_env.define("a", Expr::string("a_shadow"));
        assert_eq!(extended_env.get(&store, "a").unwrap(), Expr::string("a_shadow"));
        assert_eq!(extended_env.get(&store, "b").unwrap(), Expr::string("b"));
    }
    assert_eq!(env_ref.get(&store, "a").unwrap(), Expr::string("a"));
}

#[test]
fn env_get_unbound_and_missing_environment() {
    let mut store = Store::new();
    let env_ref = Env::new().into_ref(&mut store);
    assert_eq!(env_ref.get(&store, "nope"), Err(HError::UnboundVar("nope".to_string())));
    assert_eq!(EnvRef::nil().get(&store, "x"), Err(HError::EnvironmentNotFound));
    assert!(env_ref.is_some(&store));
    assert!(!EnvRef::nil().is_some(&store));
}

#[test]
fn env_set_uninitialized_var() {
    let mut store = Store::new();
    let env_ref = Env::new().into_ref(&mut store);
    assert_eq!(
        env_ref.set(&mut store, "x", Expr::number(1)),
        Err(HError::SetUninitializedVar("x".to_string()))
    );
}

#[test]
fn env_set_returns_previous_value() {
    let mut store = Store::new();
    let env_ref = Env::new().into_ref(&mut store);
    env_ref.define(&mut store, "x", Expr::number(1)).unwrap();
    assert_eq!(env_ref.set(&mut store, "x", Expr::number(2)), Ok(Expr::number(1)));
    assert_eq!(env_ref.get(&store, "x"), Ok(Expr::number(2)));
}

#[test]
fn env_merge_defines_each_variable() {
    let store = Store::new();
    let mut a = Env::new();
    a.define("x", Expr::number(1));
    let mut b = Env::new();
    b.define("x", Expr::number(2));
    b.define("y", Expr::number(3));
    a.merge(b);
    assert_eq!(a.get(&store, "x"), Ok(Expr::number(2)));
    assert_eq!(a.get(&store, "y"), Ok(Expr::number(3)));
}

#[test]
fn store_collects_frames() {
    let mut store = Store::new();
    assert_eq!(store.frame_count(), 0);
    let outer = Env::new().into_ref(&mut store);
    let inner = EnvRef::new(&mut store, Env::extend(outer));
    assert_eq!(store.frame_count(), 2);
    outer.define(&mut store, "v", Expr::boolean(true)).unwrap();
    assert_eq!(inner.get(&store, "v"), Ok(Expr::boolean(true)));
}

#[test]
fn new_rc_ref_cell_holds_value() {
    let cell = huckleberry::env::new_rc_ref_cell(5u8);
    assert_eq!(*cell.borrow(), 5u8);
}
