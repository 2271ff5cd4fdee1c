//! The lowering pass: translates an environment's bindings into plain
//! code-generation directives, one named global binding per stored name.
//! A code-generation backend turns each directive into its own value
//! representation; the directives themselves are ordinary data, so the
//! whole translation is decided — and verified — here.

use crate::env::{distinct_names, Environment};
use crate::errors::LowerError;
use crate::value::{spec_kind_of, SpecValue, Value};
use vstd::prelude::*;

verus! {

broadcast use vstd::std_specs::vec::group_vec_axioms;

/// The directive for one lowered value: either the target's canonical
/// no-value representation or its signed 64-bit integer constant.
#[derive(Debug, PartialEq, Eq, Clone, Copy, Structural)]
pub enum LoweredValue {
    NoValue,
    Int64(i64),
}

/// Whether a normal-form value has a lowered form. Only `Unit` and `Number`
/// do; symbols and sequences have none.
pub open spec fn lowerable(v: SpecValue) -> bool {
    v is Unit || v is Number
}

/// The lowered form of a value that has one.
pub open spec fn spec_lower_value(v: SpecValue) -> LoweredValue
    recommends
        lowerable(v),
{
    match v {
        SpecValue::Number(n) => LoweredValue::Int64(n),
        _ => LoweredValue::NoValue,
    }
}

/// No two directives share a global name.
pub open spec fn distinct_global_names(s: Seq<(String, LoweredValue)>) -> bool {
    forall|i: int, j: int| 0 <= i < j < s.len() ==> s[i].0@ != s[j].0@
}

/// Lowers one normal-form value, or reports that its variant has no
/// lowered form.
pub fn lower_value(v: &Value) -> (r: Option<LoweredValue>)
    ensures
        match r {
            Some(l) => lowerable(v.deep_view()) && l == spec_lower_value(v.deep_view()),
            None => !lowerable(v.deep_view()),
        },
{
    match v {
        Value::Unit => Some(LoweredValue::NoValue),
        Value::Number(n) => Some(LoweredValue::Int64(*n)),
        _ => None,
    }
}

/// Lowers every binding of `env` into a directive list: exactly one global
/// binding per stored name, `Unit` as the no-value form, numbers as integer
/// constants, in an enumeration order callers must not rely on. Succeeds if
/// and only if every binding is lowerable; otherwise fails with
/// `UnsupportedLowering` naming an offending binding and its variant.
/// `_entry` is a placeholder for a future entry expression and plays no
/// part in the result.
pub fn lower(env: &Environment, _entry: Option<&Value>) -> (r: Result<
    Vec<(String, LoweredValue)>,
    LowerError,
>)
    requires
        env.wf(),
    ensures
        match r {
            Ok(g) => {
                &&& distinct_global_names(g@)
                &&& forall|j: int|
                    0 <= j < g@.len() ==> env@.contains_key(#[trigger] g@[j].0@) && lowerable(
                        env@[g@[j].0@],
                    ) && g@[j].1 == spec_lower_value(env@[g@[j].0@])
                &&& forall|k: Seq<char>|
                    env@.contains_key(k) ==> exists|j: int|
                        0 <= j < g@.len() && #[trigger] g@[j].0@ == k
                &&& forall|k: Seq<char>| env@.contains_key(k) ==> lowerable(env@[k])
            },
            Err(LowerError::UnsupportedLowering { name, kind }) => {
                &&& env@.contains_key(name@)
                &&& !lowerable(env@[name@])
                &&& kind == spec_kind_of(env@[name@])
            },
        },
{
    let pairs = env.iterate();
    let mut out: Vec<(String, LoweredValue)> = Vec::new();
    let mut i: usize = 0;
    while i < pairs.len()
        invariant
            env.wf(),
            distinct_names(pairs@),
            forall|j: int|
                0 <= j < pairs@.len() ==> env@.contains_key(#[trigger] pairs@[j].0@)
                    && pairs@[j].1.deep_view() == env@[pairs@[j].0@],
            forall|k: Seq<char>|
                env@.contains_key(k) ==> exists|j: int|
                    0 <= j < pairs@.len() && #[trigger] pairs@[j].0@ == k,
            i <= pairs@.len(),
            out@.len() == i as int,
            forall|j: int|
                0 <= j < i as int ==> #[trigger] out@[j].0@ == pairs@[j].0@ && lowerable(
                    env@[pairs@[j].0@],
                ) && out@[j].1 == spec_lower_value(env@[pairs@[j].0@]),
        decreases pairs@.len() - i,
    {
        let lowered = lower_value(&pairs[i].1);
        match lowered {
            Some(l) => {
                proof {
                    assert(pairs@[i as int].1.deep_view() == env@[pairs@[i as int].0@]);
                }
                let name = pairs[i].0.clone();
                let ghost out_before = out@;
                out.push((name, l));
                proof {
                    assert forall|j: int| 0 <= j < i + 1 implies #[trigger] out@[j].0@
                        == pairs@[j].0@ && lowerable(env@[pairs@[j].0@]) && out@[j].1
                        == spec_lower_value(env@[pairs@[j].0@]) by {
                        if j < i as int {
                            assert(out@[j] == out_before[j]);
                            assert(out_before[j].0@ == pairs@[j].0@);
                        } else {
                            assert(out@[j] == (name, l));
                        }
                    }
                }
            },
            None => {
                return Err(
                    LowerError::UnsupportedLowering {
                        name: pairs[i].0.clone(),
                        kind: pairs[i].1.kind(),
                    },
                );
            },
        }
        i = i + 1;
    }
    proof {
        assert forall|k: Seq<char>| env@.contains_key(k) implies exists|j: int|
            0 <= j < out@.len() && #[trigger] out@[j].0@ == k by {
            let j = choose|j: int| 0 <= j < pairs@.len() && #[trigger] pairs@[j].0@ == k;
            assert(out@[j].0@ == k);
        }
    }
    Ok(out)
}

} // verus!
