//! The variable store: a mapping from symbol names to values, populated
//! through `define`, read through `lookup`, and enumerated through `iterate`.

use crate::errors::{EvalError, SpecEvalError};
use crate::value::{SpecValue, Value};
use vstd::prelude::*;

verus! {

broadcast use vstd::std_specs::vec::group_vec_axioms;

/// The mapping described by a run of bindings, later entries overriding
/// earlier ones with the same name.
pub open spec fn map_of(s: Seq<(String, Value)>) -> Map<Seq<char>, SpecValue>
    decreases s.len(),
{
    if s.len() == 0 {
        Map::empty()
    } else {
        map_of(s.drop_last()).insert(s.last().0@, s.last().1.deep_view())
    }
}

/// No two bindings share a name.
pub open spec fn distinct_names(s: Seq<(String, Value)>) -> bool {
    forall|i: int, j: int| 0 <= i < j < s.len() ==> s[i].0@ != s[j].0@
}

/// `map_of(s)` binds exactly the names that occur in `s`.
proof fn lemma_map_of_domain(s: Seq<(String, Value)>, n: Seq<char>)
    ensures
        map_of(s).contains_key(n) <==> exists|i: int| 0 <= i < s.len() && s[i].0@ == n,
    decreases s.len(),
{
    if s.len() > 0 {
        let prefix = s.drop_last();
        lemma_map_of_domain(prefix, n);
        if s.last().0@ == n {
            assert(s[s.len() - 1].0@ == n);
        } else {
            if map_of(s).contains_key(n) {
                let i = choose|i: int| 0 <= i < prefix.len() && prefix[i].0@ == n;
                assert(s[i].0@ == n);
            }
            if exists|i: int| 0 <= i < s.len() && s[i].0@ == n {
                let i = choose|i: int| 0 <= i < s.len() && s[i].0@ == n;
                assert(prefix[i].0@ == n);
            }
        }
    }
}

/// With distinct names, `map_of(s)` sends each stored name to the model of
/// the value stored beside it.
proof fn lemma_map_of_value(s: Seq<(String, Value)>, i: int)
    requires
        distinct_names(s),
        0 <= i < s.len(),
    ensures
        map_of(s).contains_key(s[i].0@),
        map_of(s)[s[i].0@] == s[i].1.deep_view(),
    decreases s.len(),
{
    if i < s.len() - 1 {
        let prefix = s.drop_last();
        assert(forall|a: int, b: int|
            0 <= a < b < prefix.len() ==> s[a].0@ != s[b].0@ && prefix[a] == s[a] && prefix[b]
                == s[b]);
        lemma_map_of_value(prefix, i);
        assert(s.last().0@ != s[i].0@);
    }
}

/// Removing the binding at position `i` removes exactly its name from the
/// described mapping.
proof fn lemma_map_of_remove(s: Seq<(String, Value)>, i: int)
    requires
        distinct_names(s),
        0 <= i < s.len(),
    ensures
        map_of(s.remove(i)) == map_of(s).remove(s[i].0@),
    decreases s.len(),
{
    if i == s.len() - 1 {
        assert(s.remove(i) =~= s.drop_last());
        lemma_map_of_domain(s.drop_last(), s[i].0@);
        assert(map_of(s.drop_last()) =~= map_of(s).remove(s[i].0@));
    } else {
        let prefix = s.drop_last();
        assert(forall|a: int, b: int|
            0 <= a < b < prefix.len() ==> s[a].0@ != s[b].0@ && prefix[a] == s[a] && prefix[b]
                == s[b]);
        lemma_map_of_remove(prefix, i);
        assert(s.remove(i).drop_last() =~= prefix.remove(i));
        assert(s.remove(i).last() == s.last());
        assert(map_of(s.remove(i)) == map_of(prefix.remove(i)).insert(
            s.last().0@,
            s.last().1.deep_view(),
        ));
        assert(s[i].0@ != s.last().0@);
        assert(map_of(prefix).remove(s[i].0@).insert(s.last().0@, s.last().1.deep_view())
            =~= map_of(s).remove(s[i].0@));
    }
}

/// A mapping from symbol names to values. Names are unique; a new definition
/// for a name replaces the old one. Created empty, mutated only by `define`,
/// never shrunk.
pub struct Environment {
    bindings: Vec<(String, Value)>,
}

impl View for Environment {
    type V = Map<Seq<char>, SpecValue>;

    closed spec fn view(&self) -> Map<Seq<char>, SpecValue> {
        map_of(self.bindings@)
    }
}

impl Environment {
    /// The store never holds two bindings for one name.
    pub closed spec fn wf(&self) -> bool {
        distinct_names(self.bindings@)
    }

    /// Creates an empty environment.
    pub fn new() -> (env: Environment)
        ensures
            env.wf(),
            env@ == Map::<Seq<char>, SpecValue>::empty(),
    {
        Environment { bindings: Vec::new() }
    }

    /// The position of the binding for `name`, if there is one.
    fn find(&self, name: &String) -> (r: Option<usize>)
        ensures
            match r {
                Some(i) => i < self.bindings@.len() && self.bindings@[i as int].0@ == name@,
                None => forall|i: int|
                    0 <= i < self.bindings@.len() ==> self.bindings@[i].0@ != name@,
            },
    {
        let mut i: usize = 0;
        let mut found: Option<usize> = None;
        while i < self.bindings.len()
            invariant
                i <= self.bindings@.len(),
                match found {
                    Some(k) => k < self.bindings@.len() && self.bindings@[k as int].0@ == name@,
                    None => forall|j: int| 0 <= j < i as int ==> self.bindings@[j].0@ != name@,
                },
                found is Some ==> i == self.bindings@.len(),
            decreases self.bindings@.len() - i,
        {
            if self.bindings[i].0 == *name {
                found = Some(i);
                i = self.bindings.len();
            } else {
                i = i + 1;
            }
        }
        found
    }

    /// Inserts or replaces the binding for `name`; a later definition wins.
    pub fn define(&mut self, name: String, value: Value)
        requires
            old(self).wf(),
        ensures
            final(self).wf(),
            final(self)@ == old(self)@.insert(name@, value.deep_view()),
    {
        let found = self.find(&name);
        match found {
            Some(i) => {
                proof {
                    lemma_map_of_remove(self.bindings@, i as int);
                    lemma_map_of_domain(self.bindings@.remove(i as int), name@);
                }
                self.bindings.remove(i);
            },
            None => {
                proof {
                    lemma_map_of_domain(self.bindings@, name@);
                }
            },
        }
        let ghost trimmed = self.bindings@;
        self.bindings.push((name, value));
        proof {
            assert(self.bindings@.drop_last() =~= trimmed);
            assert(forall|j: int| 0 <= j < trimmed.len() ==> trimmed[j].0@ != name@);
            assert(map_of(trimmed).insert(name@, value.deep_view()) =~= old(self)@.insert(
                name@,
                value.deep_view(),
            ));
        }
    }

    /// Returns the value bound to `name`, or reports it unbound.
    pub fn lookup(&self, name: &String) -> (r: Result<Value, EvalError>)
        requires
            self.wf(),
        ensures
            match r {
                Ok(v) => self@.contains_key(name@) && v.deep_view() == self@[name@],
                Err(e) => !self@.contains_key(name@) && e.deep_view()
                    == SpecEvalError::UnboundVariable(name@),
            },
    {
        let found = self.find(name);
        proof {
            lemma_map_of_domain(self.bindings@, name@);
        }
        match found {
            Some(i) => {
                proof {
                    lemma_map_of_value(self.bindings@, i as int);
                }
                Ok(self.bindings[i].1.clone())
            },
            None => Err(EvalError::UnboundVariable(name.clone())),
        }
    }

    /// A fresh enumeration of the bindings: one pair per stored name, in an
    /// order callers must not rely on.
    pub fn iterate(&self) -> (r: Vec<(String, Value)>)
        requires
            self.wf(),
        ensures
            distinct_names(r@),
            forall|j: int|
                0 <= j < r@.len() ==> self@.contains_key(#[trigger] r@[j].0@) && r@[j].1.deep_view()
                    == self@[r@[j].0@],
            forall|k: Seq<char>|
                self@.contains_key(k) ==> exists|j: int| 0 <= j < r@.len() && #[trigger] r@[j].0@
                    == k,
    {
        let mut r: Vec<(String, Value)> = Vec::new();
        let mut i: usize = 0;
        while i < self.bindings.len()
            invariant
                i <= self.bindings@.len(),
                r@.len() == i as int,
                forall|j: int|
                    0 <= j < i as int ==> #[trigger] r@[j].0@ == self.bindings@[j].0@
                        && r@[j].1.deep_view() == self.bindings@[j].1.deep_view(),
            decreases self.bindings@.len() - i,
        {
            let pair = (self.bindings[i].0.clone(), self.bindings[i].1.clone());
            r.push(pair);
            i = i + 1;
        }
        proof {
            assert forall|j: int|
                0 <= j < r@.len() implies self@.contains_key(#[trigger] r@[j].0@)
                && r@[j].1.deep_view() == self@[r@[j].0@] by {
                lemma_map_of_value(self.bindings@, j);
            }
            assert forall|k: Seq<char>| self@.contains_key(k) implies exists|j: int|
                0 <= j < r@.len() && #[trigger] r@[j].0@ == k by {
                lemma_map_of_domain(self.bindings@, k);
                let i = choose|i: int| 0 <= i < self.bindings@.len() && self.bindings@[i].0@ == k;
                assert(r@[i].0@ == k);
            }
        }
        r
    }
}

/// Defining a name twice keeps only the later value: the second `define`
/// replaces the first binding outright, with no error and no duplicate.
pub proof fn lemma_define_last_write(
    m: Map<Seq<char>, SpecValue>,
    n: Seq<char>,
    v1: SpecValue,
    v2: SpecValue,
)
    ensures
        m.insert(n, v1).insert(n, v2) == m.insert(n, v2),
{
    assert(m.insert(n, v1).insert(n, v2) =~= m.insert(n, v2));
}

} // verus!
