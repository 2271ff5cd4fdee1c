use toylang::env::Environment;
use toylang::errors::{EvalError, LowerError};
use toylang::eval::interpret;
use toylang::lower::{lower, lower_value, LoweredValue};
use toylang::value::{Value, ValueKind};

#[test]
fn test1() {
    let state = Environment::new();
    let tast = Value::Number(1);
    assert_eq!(interpret(&state, &tast), Ok(Value::Number(1)));

    let mut state = Environment::new();
    state.define("hello".into(), Value::Number(1));
    assert_eq!(
        interpret(&state, &Value::Symbol("hello".into())),
        Ok(Value::Number(1))
    );

    assert_eq!(interpret(&state, &Value::Sequence(vec![])), Ok(Value::Unit));
    assert_eq!(
        interpret(
            &state,
            &Value::Sequence(vec![
                Value::Symbol("+".into()),
                Value::Number(1),
                Value::Number(1)
            ])
        ),
        Ok(Value::Number(2))
    );
}

#[test]
fn number_is_normal_form() {
    let env = Environment::new();
    assert_eq!(interpret(&env, &Value::Number(0)), Ok(Value::Number(0)));
    assert_eq!(interpret(&env, &Value::Number(-7)), Ok(Value::Number(-7)));
    assert_eq!(
        interpret(&env, &Value::Number(i64::MAX)),
        Ok(Value::Number(i64::MAX))
    );
    assert_eq!(
        interpret(&env, &Value::Number(i64::MIN)),
        Ok(Value::Number(i64::MIN))
    );
}

#[test]
fn unit_is_normal_form() {
    let env = Environment::new();
    assert_eq!(interpret(&env, &Value::Unit), Ok(Value::Unit));
}

#[test]
fn bound_symbol_yields_stored_value() {
    let mut env = Environment::new();
    env.define("x".into(), Value::Number(41));
    assert_eq!(
        interpret(&env, &Value::Symbol("x".into())),
        Ok(Value::Number(41))
    );

    // One level of indirection only: a binding to a symbol comes back as
    // that symbol, not as what the symbol is in turn bound to.
    env.define("y".into(), Value::Number(5));
    env.define("alias".into(), Value::Symbol("y".into()));
    assert_eq!(
        interpret(&env, &Value::Symbol("alias".into())),
        Ok(Value::Symbol("y".into()))
    );
}

#[test]
fn unbound_symbol_fails() {
    let env = Environment::new();
    assert_eq!(
        interpret(&env, &Value::Symbol("missing".into())),
        Err(EvalError::UnboundVariable("missing".into()))
    );
}

#[test]
fn empty_sequence_yields_unit() {
    let env = Environment::new();
    assert_eq!(interpret(&env, &Value::Sequence(vec![])), Ok(Value::Unit));

    let mut env = Environment::new();
    env.define("x".into(), Value::Number(1));
    assert_eq!(interpret(&env, &Value::Sequence(vec![])), Ok(Value::Unit));
}

#[test]
fn sum_of_numbers() {
    let env = Environment::new();
    let expr = Value::Sequence(vec![
        Value::Symbol("+".into()),
        Value::Number(10),
        Value::Number(-3),
        Value::Number(5),
    ]);
    assert_eq!(interpret(&env, &expr), Ok(Value::Number(12)));
}

#[test]
fn sum_with_no_operands_is_zero() {
    let env = Environment::new();
    let expr = Value::Sequence(vec![Value::Symbol("+".into())]);
    assert_eq!(interpret(&env, &expr), Ok(Value::Number(0)));
}

#[test]
fn sum_wraps_at_64_bits() {
    let env = Environment::new();
    let expr = Value::Sequence(vec![
        Value::Symbol("+".into()),
        Value::Number(i64::MAX),
        Value::Number(1),
    ]);
    assert_eq!(interpret(&env, &expr), Ok(Value::Number(i64::MIN)));
}

#[test]
fn non_number_operand_fails_with_type_mismatch() {
    let mut env = Environment::new();
    env.define("x".into(), Value::Number(1));
    let expr = Value::Sequence(vec![
        Value::Symbol("+".into()),
        Value::Number(1),
        Value::Symbol("x".into()),
    ]);
    assert_eq!(
        interpret(&env, &expr),
        Err(EvalError::TypeMismatch {
            expected: ValueKind::Number,
            found: Value::Symbol("x".into()),
            location: 2,
        })
    );
}

#[test]
fn first_offending_operand_is_reported() {
    let env = Environment::new();
    let expr = Value::Sequence(vec![
        Value::Symbol("+".into()),
        Value::Unit,
        Value::Symbol("x".into()),
    ]);
    assert_eq!(
        interpret(&env, &expr),
        Err(EvalError::TypeMismatch {
            expected: ValueKind::Number,
            found: Value::Unit,
            location: 1,
        })
    );
}

#[test]
fn unknown_operation_fails_with_unsupported() {
    let env = Environment::new();
    let expr = Value::Sequence(vec![Value::Symbol("foo".into()), Value::Number(1)]);
    assert_eq!(
        interpret(&env, &expr),
        Err(EvalError::Unsupported {
            operation: Value::Symbol("foo".into())
        })
    );

    let headless = Value::Sequence(vec![Value::Number(1), Value::Number(2)]);
    assert_eq!(
        interpret(&env, &headless),
        Err(EvalError::Unsupported {
            operation: Value::Number(1)
        })
    );
}

#[test]
fn define_replaces_prior_binding() {
    let mut env = Environment::new();
    env.define("x".into(), Value::Number(1));
    env.define("x".into(), Value::Number(2));
    assert_eq!(
        interpret(&env, &Value::Symbol("x".into())),
        Ok(Value::Number(2))
    );

    let pairs = env.iterate();
    assert_eq!(pairs.len(), 1);
    assert_eq!(pairs[0], ("x".to_string(), Value::Number(2)));
}

#[test]
fn lookup_finds_each_binding() {
    let mut env = Environment::new();
    env.define("a".into(), Value::Number(1));
    env.define("b".into(), Value::Unit);
    assert_eq!(env.lookup(&"a".to_string()), Ok(Value::Number(1)));
    assert_eq!(env.lookup(&"b".to_string()), Ok(Value::Unit));
    assert_eq!(
        env.lookup(&"c".to_string()),
        Err(EvalError::UnboundVariable("c".into()))
    );
}

#[test]
fn iterate_enumerates_every_binding_once() {
    let mut env = Environment::new();
    env.define("a".into(), Value::Number(1));
    env.define("b".into(), Value::Number(2));
    let pairs = env.iterate();
    assert_eq!(pairs.len(), 2);
    assert!(pairs.contains(&("a".to_string(), Value::Number(1))));
    assert!(pairs.contains(&("b".to_string(), Value::Number(2))));
}

#[test]
fn clone_is_structural() {
    let v = Value::Sequence(vec![
        Value::Unit,
        Value::Number(3),
        Value::Symbol("s".into()),
        Value::Sequence(vec![Value::Number(4)]),
    ]);
    assert_eq!(v.clone(), v);
}

#[test]
fn lower_value_maps_each_variant() {
    assert_eq!(lower_value(&Value::Unit), Some(LoweredValue::NoValue));
    assert_eq!(lower_value(&Value::Number(9)), Some(LoweredValue::Int64(9)));
    assert_eq!(lower_value(&Value::Symbol("x".into())), None);
    assert_eq!(lower_value(&Value::Sequence(vec![])), None);
}

#[test]
fn lowering_emits_one_global_per_binding() {
    let mut env = Environment::new();
    env.define("a".into(), Value::Number(1));
    env.define("b".into(), Value::Unit);
    let globals = lower(&env, None).unwrap();
    assert_eq!(globals.len(), 2);
    assert!(globals.contains(&("a".to_string(), LoweredValue::Int64(1))));
    assert!(globals.contains(&("b".to_string(), LoweredValue::NoValue)));
}

#[test]
fn lowering_an_empty_environment_yields_no_globals() {
    let env = Environment::new();
    assert_eq!(lower(&env, None), Ok(vec![]));
}

#[test]
fn lowering_a_symbol_binding_fails() {
    let mut env = Environment::new();
    env.define("c".into(), Value::Symbol("x".into()));
    assert_eq!(
        lower(&env, None),
        Err(LowerError::UnsupportedLowering {
            name: "c".to_string(),
            kind: ValueKind::Symbol,
        })
    );
}

#[test]
fn lowering_a_sequence_binding_fails() {
    let mut env = Environment::new();
    env.define("c".into(), Value::Sequence(vec![Value::Number(1)]));
    assert_eq!(
        lower(&env, None),
        Err(LowerError::UnsupportedLowering {
            name: "c".to_string(),
            kind: ValueKind::Sequence,
        })
    );
}

#[test]
fn entry_placeholder_plays_no_part() {
    let mut env = Environment::new();
    env.define("a".into(), Value::Number(1));
    let with_entry = lower(&env, Some(&Value::Number(7))).unwrap();
    let without = lower(&env, None).unwrap();
    assert_eq!(with_entry, without);
}
