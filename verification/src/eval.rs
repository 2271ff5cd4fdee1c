//! The evaluator: reduces a value to normal form against an environment.
//!
//! Reduction rules, in priority order: `Unit` and `Number` are normal forms;
//! a `Symbol` reduces to the one value bound to it, without chasing further
//! indirection; an empty `Sequence` reduces to `Unit`; a non-empty `Sequence`
//! headed by `Symbol("+")` reduces to the sum of its operands, each of which
//! must already be a `Number`. Addition wraps at 64 bits, as the machine's
//! addition does; the summation law below shows the result equals the exact
//! sum whenever that sum fits in an `i64`. Any other head is unsupported.

use crate::env::Environment;
use crate::errors::{EvalError, SpecEvalError};
use crate::value::{lemma_models_of, model_of, models_of, SpecValue, Value, ValueKind};
use vstd::prelude::*;
use vstd::wrapping::i64_specs;

verus! {

broadcast use vstd::std_specs::vec::group_vec_axioms;

/// One step of 64-bit wrapping addition.
pub open spec fn wrap_add(x: i64, y: i64) -> i64 {
    i64_specs::wrapping_add(x, y)
}

/// The name of the one built-in operation.
pub open spec fn plus_name() -> Seq<char> {
    "+"@
}

/// The running sum of a run of operands under 64-bit wrapping addition, or
/// the position and value of the first operand that is not a number.
pub open spec fn spec_sum(items: Seq<SpecValue>) -> Result<i64, (int, SpecValue)>
    decreases items.len(),
{
    if items.len() == 0 {
        Ok(0i64)
    } else {
        match spec_sum(items.drop_last()) {
            Ok(acc) => match items.last() {
                SpecValue::Number(v) => Ok(wrap_add(acc, v)),
                _ => Err(((items.len() - 1) as int, items.last())),
            },
            Err(e) => Err(e),
        }
    }
}

/// What evaluation returns: the normal form of `t` under `env`, or the first
/// fault the reduction rules meet.
pub open spec fn spec_eval(env: Map<Seq<char>, SpecValue>, t: SpecValue) -> Result<
    SpecValue,
    SpecEvalError,
> {
    match t {
        SpecValue::Unit => Ok(SpecValue::Unit),
        SpecValue::Number(v) => Ok(SpecValue::Number(v)),
        SpecValue::Symbol(name) => if env.contains_key(name) {
            Ok(env[name])
        } else {
            Err(SpecEvalError::UnboundVariable(name))
        },
        SpecValue::Sequence(items) => if items.len() == 0 {
            Ok(SpecValue::Unit)
        } else if items[0] == SpecValue::Symbol(plus_name()) {
            match spec_sum(items.drop_first()) {
                Ok(sum) => Ok(SpecValue::Number(sum)),
                Err((j, v)) => Err(
                    SpecEvalError::TypeMismatch {
                        expected: ValueKind::Number,
                        found: v,
                        location: j + 1,
                    },
                ),
            }
        } else {
            Err(SpecEvalError::Unsupported { operation: items[0] })
        },
    }
}

/// The model of an evaluation result, fault and all.
pub open spec fn result_model(r: Result<Value, EvalError>) -> Result<SpecValue, SpecEvalError> {
    match r {
        Ok(v) => Ok(v.deep_view()),
        Err(e) => Err(e.deep_view()),
    }
}

/// Once a prefix of the operands has a faulting sum, every longer prefix
/// keeps that same fault.
proof fn lemma_spec_sum_err_prefix(items: Seq<SpecValue>, k: int, m: int)
    requires
        0 <= k <= m <= items.len(),
        spec_sum(items.take(k)) is Err,
    ensures
        spec_sum(items.take(m)) == spec_sum(items.take(k)),
    decreases m - k,
{
    if m > k {
        lemma_spec_sum_err_prefix(items, k, m - 1);
        assert(items.take(m).drop_last() =~= items.take(m - 1));
    }
}

/// Reduces `t` to normal form under `env`: the result is exactly what the
/// reduction rules prescribe, for every input.
pub fn interpret(env: &Environment, t: &Value) -> (r: Result<Value, EvalError>)
    requires
        env.wf(),
    ensures
        result_model(r) == spec_eval(env@, t.deep_view()),
{
    match t {
        Value::Unit => Ok(Value::Unit),
        Value::Number(v) => Ok(Value::Number(*v)),
        Value::Symbol(name) => env.lookup(name),
        Value::Sequence(items) => {
            let ghost m = models_of(items@);
            proof {
                lemma_models_of(items@);
            }
            if items.len() == 0 {
                Ok(Value::Unit)
            } else {
                let plus: String = "+".to_owned();
                let head_is_plus = match &items[0] {
                    Value::Symbol(name) => *name == plus,
                    _ => false,
                };
                if head_is_plus {
                    let ghost rest = m.drop_first();
                    let mut acc: i64 = 0;
                    let mut i: usize = 1;
                    let mut fault: Option<EvalError> = None;
                    proof {
                        assert(rest.take(0) =~= Seq::<SpecValue>::empty());
                    }
                    while i < items.len() && fault.is_none()
                        invariant
                            env.wf(),
                            1 <= i <= items@.len(),
                            m == models_of(items@),
                            m.len() == items@.len(),
                            forall|j: int| 0 <= j < m.len() ==> m[j] == model_of(items@[j]),
                            rest == m.drop_first(),
                            match fault {
                                None => spec_sum(rest.take(i - 1)) == Ok::<i64, (int, SpecValue)>(
                                    acc,
                                ),
                                Some(e) => spec_sum(rest) == Err::<i64, (int, SpecValue)>(
                                    ((i - 1) as int, rest[i - 1]),
                                ) && e.deep_view() == SpecEvalError::TypeMismatch {
                                    expected: ValueKind::Number,
                                    found: rest[i - 1],
                                    location: i as int,
                                },
                            },
                        decreases items@.len() - i, (if fault is None { 1int } else { 0int }),
                    {
                        proof {
                            assert(rest.take(i as int).drop_last() =~= rest.take(i - 1));
                            assert(rest.take(i as int).last() == m[i as int]);
                        }
                        match &items[i] {
                            Value::Number(v) => {
                                acc = acc.wrapping_add(*v);
                                i = i + 1;
                            },
                            other => {
                                fault = Some(
                                    EvalError::TypeMismatch {
                                        expected: ValueKind::Number,
                                        found: other.clone(),
                                        location: i,
                                    },
                                );
                                proof {
                                    lemma_spec_sum_err_prefix(rest, i as int, rest.len() as int);
                                    assert(rest.take(rest.len() as int) =~= rest);
                                }
                            },
                        }
                    }
                    match fault {
                        Some(e) => Err(e),
                        None => {
                            proof {
                                assert(rest.take(i - 1) =~= rest);
                            }
                            Ok(Value::Number(acc))
                        },
                    }
                } else {
                    Err(EvalError::Unsupported { operation: items[0].clone() })
                }
            }
        },
    }
}

/// The exact, unbounded sum of a run of numeric operands.
pub open spec fn exact_sum(items: Seq<SpecValue>) -> int
    recommends
        forall|i: int| 0 <= i < items.len() ==> items[i] is Number,
    decreases items.len(),
{
    if items.len() == 0 {
        0
    } else {
        exact_sum(items.drop_last()) + (match items.last() {
            SpecValue::Number(v) => v as int,
            _ => 0,
        })
    }
}

/// On all-numeric operands the wrapping sum succeeds and agrees with the
/// exact sum up to a multiple of 2^64.
proof fn lemma_spec_sum_congruent(items: Seq<SpecValue>)
    requires
        forall|i: int| 0 <= i < items.len() ==> items[i] is Number,
    ensures
        spec_sum(items) is Ok,
        exists|k: int|
            spec_sum(items)->Ok_0 == exact_sum(items) + #[trigger] (k * 0x1_0000_0000_0000_0000),
    decreases items.len(),
{
    if items.len() == 0 {
        assert(spec_sum(items)->Ok_0 == exact_sum(items) + 0 * 0x1_0000_0000_0000_0000);
    } else {
        let prefix = items.drop_last();
        assert(forall|i: int| 0 <= i < prefix.len() ==> prefix[i] == items[i]);
        lemma_spec_sum_congruent(prefix);
        let k = choose|k: int|
            spec_sum(prefix)->Ok_0 == exact_sum(prefix) + #[trigger] (k * 0x1_0000_0000_0000_0000);
        let acc = spec_sum(prefix)->Ok_0;
        let v = items.last()->Number_0;
        if acc + v > i64::MAX {
            assert(spec_sum(items)->Ok_0 == exact_sum(items) + (k - 1)
                * 0x1_0000_0000_0000_0000);
        } else if acc + v < i64::MIN {
            assert(spec_sum(items)->Ok_0 == exact_sum(items) + (k + 1)
                * 0x1_0000_0000_0000_0000);
        } else {
            assert(spec_sum(items)->Ok_0 == exact_sum(items) + k * 0x1_0000_0000_0000_0000);
        }
    }
}

/// Identity law: a number evaluates to itself, under every environment.
pub proof fn lemma_eval_number(env: Map<Seq<char>, SpecValue>, v: i64)
    ensures
        spec_eval(env, SpecValue::Number(v)) == Ok::<SpecValue, SpecEvalError>(
            SpecValue::Number(v),
        ),
{
}

/// A symbol bound to `v` evaluates to exactly `v`: one level of lookup,
/// with no further reduction of the stored value.
pub proof fn lemma_eval_bound_symbol(env: Map<Seq<char>, SpecValue>, n: Seq<char>, v: SpecValue)
    requires
        env.contains_key(n),
        env[n] == v,
    ensures
        spec_eval(env, SpecValue::Symbol(n)) == Ok::<SpecValue, SpecEvalError>(v),
{
}

/// A symbol with no binding fails with `UnboundVariable` naming it.
pub proof fn lemma_eval_unbound_symbol(env: Map<Seq<char>, SpecValue>, n: Seq<char>)
    requires
        !env.contains_key(n),
    ensures
        spec_eval(env, SpecValue::Symbol(n)) == Err::<SpecValue, SpecEvalError>(
            SpecEvalError::UnboundVariable(n),
        ),
{
}

/// The empty sequence evaluates to `Unit`, under every environment.
pub proof fn lemma_eval_empty_sequence(env: Map<Seq<char>, SpecValue>)
    ensures
        spec_eval(env, SpecValue::Sequence(Seq::empty())) == Ok::<SpecValue, SpecEvalError>(
            SpecValue::Unit,
        ),
{
}

/// Summation law: a sequence headed by `Symbol("+")` whose operands are all
/// numbers evaluates to the number whose value is their exact sum, whenever
/// that sum fits in an `i64`. With no operands the sum is 0. (On a sum that
/// leaves the `i64` range the result is the wrapped sum instead, per
/// `spec_sum`.)
pub proof fn lemma_eval_sum(env: Map<Seq<char>, SpecValue>, items: Seq<SpecValue>)
    requires
        items.len() >= 1,
        items[0] == SpecValue::Symbol(plus_name()),
        forall|i: int| 1 <= i < items.len() ==> items[i] is Number,
        i64::MIN <= exact_sum(items.drop_first()) <= i64::MAX,
    ensures
        spec_eval(env, SpecValue::Sequence(items)) == Ok::<SpecValue, SpecEvalError>(
            SpecValue::Number(exact_sum(items.drop_first()) as i64),
        ),
{
    let rest = items.drop_first();
    assert(forall|i: int| 0 <= i < rest.len() ==> rest[i] == items[i + 1]);
    lemma_spec_sum_congruent(rest);
    let k = choose|k: int|
        spec_sum(rest)->Ok_0 == exact_sum(rest) + #[trigger] (k * 0x1_0000_0000_0000_0000);
    assert(k == 0) by {
        if k >= 1 {
            assert(k * 0x1_0000_0000_0000_0000 >= 0x1_0000_0000_0000_0000);
        }
        if k <= -1 {
            assert(k * 0x1_0000_0000_0000_0000 <= -0x1_0000_0000_0000_0000);
        }
    }
}

/// A sequence headed by anything but `Symbol("+")` fails with `Unsupported`
/// carrying that head.
pub proof fn lemma_eval_unsupported(env: Map<Seq<char>, SpecValue>, items: Seq<SpecValue>)
    requires
        items.len() >= 1,
        items[0] != SpecValue::Symbol(plus_name()),
    ensures
        spec_eval(env, SpecValue::Sequence(items)) == Err::<SpecValue, SpecEvalError>(
            SpecEvalError::Unsupported { operation: items[0] },
        ),
{
}

/// A summation whose first non-numeric operand stands at position `j` fails
/// with `TypeMismatch` carrying that operand and its position — an error
/// result, never an abort.
pub proof fn lemma_eval_type_mismatch(
    env: Map<Seq<char>, SpecValue>,
    items: Seq<SpecValue>,
    j: int,
)
    requires
        items.len() >= 1,
        items[0] == SpecValue::Symbol(plus_name()),
        1 <= j < items.len(),
        !(items[j] is Number),
        forall|i: int| 1 <= i < j ==> items[i] is Number,
    ensures
        spec_eval(env, SpecValue::Sequence(items)) == Err::<SpecValue, SpecEvalError>(
            SpecEvalError::TypeMismatch {
                expected: ValueKind::Number,
                found: items[j],
                location: j,
            },
        ),
{
    let rest = items.drop_first();
    assert(forall|i: int| 0 <= i < rest.len() ==> rest[i] == items[i + 1]);
    let p = j - 1;
    let front = rest.take(p);
    assert(forall|i: int| 0 <= i < front.len() ==> front[i] == rest[i] && front[i] is Number);
    lemma_spec_sum_congruent(front);
    assert(rest.take(p + 1).drop_last() =~= front);
    assert(rest.take(p + 1).last() == rest[p]);
    assert(spec_sum(rest.take(p + 1)) == Err::<i64, (int, SpecValue)>((p, rest[p])));
    lemma_spec_sum_err_prefix(rest, p + 1, rest.len() as int);
    assert(rest.take(rest.len() as int) =~= rest);
}

} // verus!
