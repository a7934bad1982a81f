//! Variable storage: a stack of scopes, innermost last. Declaring
//! always binds in the innermost scope; assigning writes to the
//! nearest enclosing scope that already binds the name; lookup walks
//! the chain outward.

use vstd::prelude::*;
use crate::value::{SpecValue, Value, clone_value, opt_value_view};
use crate::scanner::str_eq_str;

verus! {

/// The model of one scope: a finite map from name to value.
pub open spec fn scope_view(entries: Seq<(String, Value)>) -> Map<Seq<char>, SpecValue>
    decreases entries.len(),
{
    if entries.len() == 0 {
        Map::empty()
    } else {
        scope_view(entries.drop_last()).insert(entries.last().0@, entries.last().1@)
    }
}

/// The model of the whole chain: the scopes' maps, global first,
/// innermost last.
pub type SpecEnv = Seq<Map<Seq<char>, SpecValue>>;

/// Name resolution: the innermost scope that binds the name wins.
pub open spec fn spec_lookup(env: SpecEnv, name: Seq<char>) -> Option<SpecValue>
    decreases env.len(),
{
    if env.len() == 0 {
        None
    } else if env.last().contains_key(name) {
        Some(env.last()[name])
    } else {
        spec_lookup(env.drop_last(), name)
    }
}

/// Assignment: write into the innermost scope that already binds the
/// name; `None` when no scope does. Never creates a binding.
pub open spec fn spec_assign_env(env: SpecEnv, name: Seq<char>, v: SpecValue) -> Option<SpecEnv>
    decreases env.len(),
{
    if env.len() == 0 {
        None
    } else if env.last().contains_key(name) {
        Some(env.drop_last().push(env.last().insert(name, v)))
    } else {
        match spec_assign_env(env.drop_last(), name, v) {
            Some(e2) => Some(e2.push(env.last())),
            None => None,
        }
    }
}

/// Declaration: bind in the innermost scope, shadowing any outer
/// binding and replacing an existing one in the same scope.
pub open spec fn spec_define_env(env: SpecEnv, name: Seq<char>, v: SpecValue) -> SpecEnv
    recommends
        env.len() > 0,
{
    if env.len() == 0 {
        env
    } else {
        env.update(env.len() - 1, env.last().insert(name, v))
    }
}

/// The shadowing law: a declaration made in a freshly entered scope
/// vanishes with that scope; discarding it leaves the enclosing chain
/// exactly as it was.
pub proof fn lemma_shadowing(
    env: SpecEnv,
    m: Map<Seq<char>, SpecValue>,
    name: Seq<char>,
    v: SpecValue,
)
    ensures
        spec_define_env(env.push(m), name, v).drop_last() =~= env,
{
}

/// The assignment-visibility law: assigning under scopes that do not
/// bind the name writes through to the enclosing chain, so the write
/// survives when the inner scope is discarded.
pub proof fn lemma_assign_through(
    env: SpecEnv,
    m: Map<Seq<char>, SpecValue>,
    name: Seq<char>,
    v: SpecValue,
)
    requires
        !m.contains_key(name),
    ensures
        match spec_assign_env(env, name, v) {
            Some(e2) => spec_assign_env(env.push(m), name, v) == Some(e2.push(m)),
            None => spec_assign_env(env.push(m), name, v) is None,
        },
{
    assert(env.push(m).drop_last() =~= env);
}

/// After a successful assignment the chain resolves the name to the
/// assigned value.
pub proof fn lemma_assign_lookup(env: SpecEnv, name: Seq<char>, v: SpecValue)
    ensures
        match spec_assign_env(env, name, v) {
            Some(e2) => spec_lookup(e2, name) == Some(v),
            None => true,
        },
    decreases env.len(),
{
    if env.len() > 0 {
        if env.last().contains_key(name) {
            let e2 = env.drop_last().push(env.last().insert(name, v));
            assert(e2.last() == env.last().insert(name, v));
        } else {
            lemma_assign_lookup(env.drop_last(), name, v);
            match spec_assign_env(env.drop_last(), name, v) {
                Some(e2i) => {
                    let e2 = e2i.push(env.last());
                    assert(e2.drop_last() =~= e2i);
                },
                None => {},
            }
        }
    }
}

pub open spec fn unique_keys(entries: Seq<(String, Value)>) -> bool {
    forall|i: int, j: int|
        0 <= i < j < entries.len() ==> (#[trigger] entries[i]).0@ != (#[trigger] entries[j]).0@
}

/// The keys of a scope's map are exactly its entries' names, each
/// bound to that entry's value.
proof fn lemma_scope_view(entries: Seq<(String, Value)>)
    requires
        unique_keys(entries),
    ensures
        forall|k: Seq<char>|
            #[trigger] scope_view(entries).contains_key(k) <==> exists|i: int|
                0 <= i < entries.len() && (#[trigger] entries[i]).0@ == k,
        forall|i: int|
            0 <= i < entries.len() ==> scope_view(entries)[(#[trigger] entries[i]).0@]
                == entries[i].1@,
    decreases entries.len(),
{
    if entries.len() > 0 {
        assert(unique_keys(entries.drop_last()));
        lemma_scope_view(entries.drop_last());
        assert forall|k: Seq<char>| #[trigger]
            scope_view(entries).contains_key(k) implies exists|i: int|
            0 <= i < entries.len() && (#[trigger] entries[i]).0@ == k by {
            if k != entries.last().0@ {
                assert(scope_view(entries.drop_last()).contains_key(k));
                let i = choose|i: int|
                    0 <= i < entries.drop_last().len() && (#[trigger] entries.drop_last()[i]).0@
                        == k;
                assert(entries.drop_last()[i] == entries[i]);
                assert(entries[i].0@ == k);
            } else {
                assert(entries[entries.len() - 1].0@ == k);
            }
        }
        assert forall|k: Seq<char>| (exists|i: int|
            0 <= i < entries.len() && (#[trigger] entries[i]).0@ == k) implies #[trigger]
            scope_view(entries).contains_key(k) by {
            let i = choose|i: int| 0 <= i < entries.len() && (#[trigger] entries[i]).0@ == k;
            if i < entries.len() - 1 {
                assert(entries.drop_last()[i].0@ == k);
            }
        }
        assert forall|i: int| 0 <= i < entries.len() implies scope_view(entries)[(
        #[trigger] entries[i]).0@] == entries[i].1@ by {
            if i < entries.len() - 1 {
                assert(entries.drop_last()[i] == entries[i]);
                assert(entries[i].0@ != entries.last().0@);
            }
        }
    }
}

/// Replacing the entry that holds a name updates the map at that name.
proof fn lemma_scope_view_update(entries: Seq<(String, Value)>, i: int, e: (String, Value))
    requires
        unique_keys(entries),
        0 <= i < entries.len(),
        entries[i].0@ == e.0@,
    ensures
        scope_view(entries.update(i, e)) =~= scope_view(entries).insert(e.0@, e.1@),
        unique_keys(entries.update(i, e)),
    decreases entries.len(),
{
    let upd = entries.update(i, e);
    assert forall|a: int, b: int| 0 <= a < b < upd.len() implies (#[trigger] upd[a]).0@ != (
    #[trigger] upd[b]).0@ by {
        assert(entries[a].0@ != entries[b].0@);
    }
    if i == entries.len() - 1 {
        assert(upd.drop_last() =~= entries.drop_last());
    } else {
        assert(unique_keys(entries.drop_last()));
        assert(entries.drop_last()[i] == entries[i]);
        lemma_scope_view_update(entries.drop_last(), i, e);
        assert(upd.drop_last() =~= entries.drop_last().update(i, e));
        assert(upd.last() == entries.last());
        assert(entries.last().0@ != e.0@);
    }
}

/// A fresh name appended to a scope inserts it into the map.
proof fn lemma_scope_view_push(entries: Seq<(String, Value)>, e: (String, Value))
    requires
        unique_keys(entries),
        forall|i: int| 0 <= i < entries.len() ==> (#[trigger] entries[i]).0@ != e.0@,
    ensures
        scope_view(entries.push(e)) =~= scope_view(entries).insert(e.0@, e.1@),
        unique_keys(entries.push(e)),
{
    assert(entries.push(e).drop_last() =~= entries);
    assert forall|a: int, b: int|
        0 <= a < b < entries.push(e).len() implies (#[trigger] entries.push(e)[a]).0@ != (
    #[trigger] entries.push(e)[b]).0@ by {
        if b < entries.len() {
            assert(entries[a].0@ != entries[b].0@);
        } else {
            assert(entries.push(e)[b] == e);
            assert(entries.push(e)[a] == entries[a]);
        }
    }
}

/// Find the entry that binds a name in one scope.
fn find_entry(entries: &Vec<(String, Value)>, name: &str) -> (r: Option<usize>)
    ensures
        match r {
            Some(i) => i < entries@.len() && entries@[i as int].0@ == name@,
            None => forall|i: int| 0 <= i < entries@.len() ==> (#[trigger] entries@[i]).0@ != name@,
        },
{
    let mut i: usize = 0;
    while i < entries.len()
        invariant
            i <= entries@.len(),
            forall|k: int| 0 <= k < i ==> (#[trigger] entries@[k]).0@ != name@,
        decreases entries@.len() - i,
    {
        if str_eq_str(entries[i].0.as_str(), name) {
            return Some(i);
        }
        i = i + 1;
    }
    None
}

/// The scope chain. One `Environment` exists for a whole program; a
/// block pushes one scope on entry and discards it on exit.
pub struct Environment {
    scopes: Vec<Vec<(String, Value)>>,
}

impl View for Environment {
    type V = SpecEnv;

    closed spec fn view(&self) -> SpecEnv {
        self.scopes@.map_values(|s: Vec<(String, Value)>| scope_view(s@))
    }
}

impl Environment {
    pub closed spec fn wf(&self) -> bool {
        &&& self.scopes@.len() >= 1
        &&& forall|j: int| 0 <= j < self.scopes@.len() ==> unique_keys((#[trigger] self.scopes@[j])@)
    }

    /// A fresh chain: one empty global scope.
    pub fn new() -> (r: Environment)
        ensures
            r.wf(),
            r@ =~= seq![Map::<Seq<char>, SpecValue>::empty()],
    {
        let mut scopes: Vec<Vec<(String, Value)>> = Vec::new();
        scopes.push(Vec::new());
        let r = Environment { scopes };
        proof {
            assert(r@ =~= seq![Map::<Seq<char>, SpecValue>::empty()]);
        }
        r
    }

    /// Enter a block: push a fresh innermost scope.
    pub fn enclose(&mut self)
        requires
            old(self).wf(),
        ensures
            final(self).wf(),
            final(self)@ =~= old(self)@.push(Map::<Seq<char>, SpecValue>::empty()),
    {
        self.scopes.push(Vec::new());
        proof {
            assert(self@ =~= old(self)@.push(Map::<Seq<char>, SpecValue>::empty()));
        }
    }

    /// Leave a block: discard the innermost scope. The global scope is
    /// never discarded.
    pub fn discard(&mut self)
        requires
            old(self).wf(),
            old(self)@.len() >= 2,
        ensures
            final(self).wf(),
            final(self)@ =~= old(self)@.drop_last(),
    {
        let _ = self.scopes.pop();
        proof {
            assert(self@ =~= old(self)@.drop_last());
        }
    }

    /// Declare: bind the name in the innermost scope, replacing any
    /// binding the same scope already has.
    pub fn define(&mut self, name: &str, value: Value)
        requires
            old(self).wf(),
        ensures
            final(self).wf(),
            final(self)@ =~= spec_define_env(old(self)@, name@, value@),
    {
        let ghost env0 = self@;
        let top_opt = self.scopes.pop();
        let mut top = match top_opt {
            Some(t) => t,
            None => {
                proof {
                    assert(false);
                }
                Vec::new()
            },
        };
        let ghost top0 = top@;
        proof {
            lemma_scope_view(top0);
            assert(env0.last() == scope_view(top0));
            assert(self@ =~= env0.drop_last());
        }
        match find_entry(&top, name) {
            Some(i) => {
                let _ = top.remove(i);
                top.insert(i, (name.to_owned(), value));
                proof {
                    assert(top@ =~= top0.update(i as int, top@[i as int]));
                    lemma_scope_view_update(top0, i as int, top@[i as int]);
                }
            },
            None => {
                top.push((name.to_owned(), value));
                proof {
                    lemma_scope_view_push(top0, top@.last());
                }
            },
        }
        self.scopes.push(top);
        proof {
            assert(self@ =~= spec_define_env(env0, name@, value@));
        }
    }

    /// Assign: write to the innermost scope that already binds the
    /// name. Returns false, changing nothing, when no scope binds it.
    pub fn assign(&mut self, name: &str, value: Value) -> (r: bool)
        requires
            old(self).wf(),
        ensures
            final(self).wf(),
            match spec_assign_env(old(self)@, name@, value@) {
                Some(e2) => r && final(self)@ =~= e2,
                None => !r && final(self)@ =~= old(self)@,
            },
        decreases old(self)@.len(),
    {
        let ghost env0 = self@;
        let top_opt = self.scopes.pop();
        let mut top = match top_opt {
            Some(t) => t,
            None => {
                proof {
                    assert(false);
                }
                Vec::new()
            },
        };
        let ghost top0 = top@;
        proof {
            lemma_scope_view(top0);
            assert(env0.last() == scope_view(top0));
            assert(self@ =~= env0.drop_last());
        }
        match find_entry(&top, name) {
            Some(i) => {
                let _ = top.remove(i);
                top.insert(i, (name.to_owned(), value));
                proof {
                    assert(top@ =~= top0.update(i as int, top@[i as int]));
                    lemma_scope_view_update(top0, i as int, top@[i as int]);
                }
                self.scopes.push(top);
                proof {
                    assert(env0.last().contains_key(name@));
                    assert(self@ =~= env0.drop_last().push(env0.last().insert(name@, value@)));
                }
                true
            },
            None => {
                proof {
                    assert(!env0.last().contains_key(name@));
                }
                if self.scopes.len() == 0 {
                    self.scopes.push(top);
                    proof {
                        assert(self@ =~= env0);
                    }
                    false
                } else {
                    let r = self.assign(name, value);
                    self.scopes.push(top);
                    proof {
                        assert(top@ == top0);
                        match spec_assign_env(env0.drop_last(), name@, value@) {
                            Some(e2) => {
                                assert(self@ =~= e2.push(env0.last()));
                            },
                            None => {
                                assert(self@ =~= env0.drop_last().push(env0.last()));
                                assert(env0.drop_last().push(env0.last()) =~= env0);
                            },
                        }
                    }
                    r
                }
            },
        }
    }

    /// Look the name up, innermost scope outward.
    pub fn get(&self, name: &str) -> (r: Option<Value>)
        requires
            self.wf(),
        ensures
            opt_value_view(r) == spec_lookup(self@, name@),
    {
        let ghost env = self@;
        proof {
            assert(env.subrange(0, env.len() as int) =~= env);
        }
        let mut j = self.scopes.len();
        while j > 0
            invariant
                self.wf(),
                env == self@,
                j <= self.scopes@.len(),
                spec_lookup(env, name@) == spec_lookup(env.subrange(0, j as int), name@),
            decreases j,
        {
            j = j - 1;
            let ghost sub = env.subrange(0, j + 1);
            proof {
                lemma_scope_view((self.scopes@[j as int])@);
                assert(sub.last() == scope_view((self.scopes@[j as int])@));
                assert(sub.drop_last() =~= env.subrange(0, j as int));
            }
            match find_entry(&self.scopes[j], name) {
                Some(i) => {
                    let v = clone_value(&self.scopes[j][i].1);
                    proof {
                        assert(sub.last().contains_key(name@));
                        assert(sub.last()[name@] == v@);
                    }
                    return Some(v);
                },
                None => {
                    proof {
                        assert(!sub.last().contains_key(name@));
                    }
                },
            }
        }
        proof {
            assert(env.subrange(0, 0) =~= Seq::<Map<Seq<char>, SpecValue>>::empty());
        }
        None
    }
}

} // verus!
