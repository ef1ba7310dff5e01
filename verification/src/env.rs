//! Variable environments: a stack of scopes, innermost last.
use vstd::prelude::*;
use crate::value::{Value, SpecValue, value_view, copy_value};

verus! {

/// A scope's bindings, each name at most once.
pub type SpecScope = Seq<(Seq<char>, SpecValue)>;

/// Position of `name` in `sc`, searching from the end; `-1` when absent.
pub open spec fn scope_index(sc: SpecScope, name: Seq<char>) -> int
    decreases sc.len(),
{
    if sc.len() == 0 {
        -1
    } else if sc[sc.len() - 1].0 == name {
        sc.len() - 1
    } else {
        scope_index(sc.subrange(0, sc.len() - 1), name)
    }
}

/// The value bound to `name`, innermost scope first.
pub open spec fn env_get(env: Seq<SpecScope>, name: Seq<char>) -> Option<SpecValue>
    decreases env.len(),
{
    if env.len() == 0 {
        None
    } else {
        let sc = env[env.len() - 1];
        let k = scope_index(sc, name);
        if k >= 0 {
            Some(sc[k].1)
        } else {
            env_get(env.subrange(0, env.len() - 1), name)
        }
    }
}

/// Binds `name` in the innermost scope, replacing a binding of the same name there.
pub open spec fn env_define(env: Seq<SpecScope>, name: Seq<char>, v: SpecValue) -> Seq<SpecScope> {
    if env.len() == 0 {
        env
    } else {
        let sc = env[env.len() - 1];
        let k = scope_index(sc, name);
        let sc2 = if k >= 0 {
            sc.update(k, (name, v))
        } else {
            sc.push((name, v))
        };
        env.update(env.len() - 1, sc2)
    }
}

/// Rebinds `name` in the innermost scope that binds it; `None` when no scope does.
pub open spec fn env_assign(env: Seq<SpecScope>, name: Seq<char>, v: SpecValue) -> Option<Seq<SpecScope>>
    decreases env.len(),
{
    if env.len() == 0 {
        None
    } else {
        let sc = env[env.len() - 1];
        let k = scope_index(sc, name);
        if k >= 0 {
            Some(env.update(env.len() - 1, sc.update(k, (name, v))))
        } else {
            match env_assign(env.subrange(0, env.len() - 1), name, v) {
                Some(e) => Some(e.push(sc)),
                None => None,
            }
        }
    }
}

pub open spec fn env_push(env: Seq<SpecScope>) -> Seq<SpecScope> {
    env.push(Seq::empty())
}

pub open spec fn env_pop(env: Seq<SpecScope>) -> Seq<SpecScope> {
    if env.len() > 0 {
        env.subrange(0, env.len() - 1)
    } else {
        env
    }
}

/// The variables of a running agent.
pub struct Environment<'a> {
    scopes: Vec<Vec<(String, Value<'a>)>>,
}

pub open spec fn scope_view<'a>(sc: Seq<(String, Value<'a>)>) -> SpecScope {
    Seq::new(sc.len(), |i: int| (sc[i].0@, value_view(sc[i].1)))
}

impl<'a> View for Environment<'a> {
    type V = Seq<SpecScope>;

    closed spec fn view(&self) -> Seq<SpecScope> {
        Seq::new(self.scopes@.len(), |i: int| scope_view(self.scopes@[i]@))
    }
}

fn find_in_scope<'a>(sc: &Vec<(String, Value<'a>)>, name: &String) -> (k: Option<usize>)
    ensures
        match k {
            Some(k) => k < sc@.len() && scope_index(scope_view(sc@), name@) == k,
            None => scope_index(scope_view(sc@), name@) == -1,
        },
{
    let mut i = sc.len();
    assert(scope_view(sc@).subrange(0, i as int) =~= scope_view(sc@));
    while i > 0
        invariant
            i <= sc@.len(),
            scope_index(scope_view(sc@), name@) == scope_index(scope_view(sc@).subrange(0, i as int), name@),
        decreases i,
    {
        assert(scope_view(sc@).subrange(0, i as int).subrange(0, i - 1) =~= scope_view(sc@).subrange(0, i - 1));
        if sc[i - 1].0 == *name {
            return Some(i - 1);
        }
        i = i - 1;
    }
    None
}

impl<'a> Environment<'a> {
    /// An environment with one empty scope.
    pub fn new_global() -> (e: Self)
        ensures
            e@ == seq![Seq::<(Seq<char>, SpecValue)>::empty()],
    {
        let mut scopes = Vec::new();
        scopes.push(Vec::new());
        let e = Environment { scopes };
        assert(e@[0] =~= Seq::<(Seq<char>, SpecValue)>::empty());
        assert(e@ =~= seq![Seq::<(Seq<char>, SpecValue)>::empty()]);
        e
    }

    pub fn push_scope(&mut self)
        ensures
            final(self)@ == env_push(old(self)@),
    {
        self.scopes.push(Vec::new());
        assert(self@[self@.len() - 1] =~= Seq::<(Seq<char>, SpecValue)>::empty());
        assert(self@ =~= env_push(old(self)@));
    }

    pub fn pop_scope(&mut self)
        ensures
            final(self)@ == env_pop(old(self)@),
    {
        if self.scopes.len() > 0 {
            let _ = self.scopes.pop();
        }
        assert(self@ =~= env_pop(old(self)@));
    }

    /// A copy of the value bound to `name`.
    pub fn get(&self, name: &String) -> (r: Option<Value<'a>>)
        ensures
            match (r, env_get(self@, name@)) {
                (Some(v), Some(w)) => v@ == w,
                (None, None) => true,
                _ => false,
            },
    {
        let mut i = self.scopes.len();
        assert(self@.subrange(0, i as int) =~= self@);
        while i > 0
            invariant
                i <= self.scopes@.len(),
                env_get(self@, name@) == env_get(self@.subrange(0, i as int), name@),
            decreases i,
        {
            assert(self@.subrange(0, i as int).subrange(0, i - 1) =~= self@.subrange(0, i - 1));
            assert(self@[i - 1] == scope_view(self.scopes@[i - 1]@));
            match find_in_scope(&self.scopes[i - 1], name) {
                Some(k) => {
                    return Some(copy_value(&self.scopes[i - 1][k].1));
                },
                None => {},
            }
            i = i - 1;
        }
        None
    }

    /// Binds `name` to `v` in the innermost scope.
    pub fn define(&mut self, name: String, v: Value<'a>)
        ensures
            final(self)@ == env_define(old(self)@, name@, v@),
    {
        let n = self.scopes.len();
        if n == 0 {
            return;
        }
        let mut sc: Vec<(String, Value<'a>)> = Vec::new();
        self.scopes.set_and_swap(n - 1, &mut sc);
        let ghost sv = scope_view(sc@);
        assert(sv == old(self)@[n - 1]);
        let ghost name_v = name@;
        let ghost v_v = v@;
        match find_in_scope(&sc, &name) {
            Some(k) => {
                sc.set(k, (name, v));
                assert(scope_view(sc@) =~= sv.update(k as int, (name_v, v_v)));
            },
            None => {
                sc.push((name, v));
                assert(scope_view(sc@) =~= sv.push((name_v, v_v)));
            },
        }
        self.scopes.set_and_swap(n - 1, &mut sc);
        assert(self@ =~= env_define(old(self)@, name_v, v_v));
    }

    /// Rebinds `name` to `v` in the innermost scope that binds it; `false`,
    /// with nothing changed, when none does.
    pub fn assign(&mut self, name: &String, v: Value<'a>) -> (found: bool)
        ensures
            match env_assign(old(self)@, name@, v@) {
                Some(e) => found && final(self)@ == e,
                None => !found && final(self)@ == old(self)@,
            },
    {
        let mut i = self.scopes.len();
        let ghost e0 = self@;
        while i > 0
            invariant
                i <= self.scopes@.len(),
                self@ == e0,
                e0 == old(self)@,
                forall|j: int| i <= j < e0.len() ==> scope_index(#[trigger] e0[j], name@) == -1,
            decreases i,
        {
            match find_in_scope(&self.scopes[i - 1], name) {
                Some(k) => {
                    let mut sc: Vec<(String, Value<'a>)> = Vec::new();
                    self.scopes.set_and_swap(i - 1, &mut sc);
                    let ghost sv = scope_view(sc@);
                    let ghost v_v = v@;
                    sc.set(k, (name.clone(), v));
                    assert(scope_view(sc@) =~= sv.update(k as int, (name@, v_v)));
                    self.scopes.set_and_swap(i - 1, &mut sc);
                    proof {
                        assert(e0[i - 1] == sv);
                        lemma_assign_at(e0, name@, v_v, (i - 1) as int, k as int);
                    }
                    assert(self@ =~= e0.update(i - 1, e0[i - 1].update(k as int, (name@, v_v))));

                    return true;
                },
                None => {},
            }
            i = i - 1;
        }
        proof {
            lemma_assign_none(e0, name@, v@);
        }
        false
    }
}

/// Assignment rebinds in the innermost scope that binds the name.
proof fn lemma_assign_at(e: Seq<SpecScope>, name: Seq<char>, v: SpecValue, i: int, k: int)
    requires
        0 <= i < e.len(),
        scope_index(e[i], name) == k,
        0 <= k < e[i].len(),
        forall|j: int| i < j < e.len() ==> scope_index(#[trigger] e[j], name) == -1,
    ensures
        env_assign(e, name, v) == Some(e.update(i, e[i].update(k, (name, v)))),
    decreases e.len(),
{
    if i < e.len() - 1 {
        let e1 = e.subrange(0, e.len() - 1);
        assert(scope_index(e[e.len() - 1], name) == -1);
        lemma_assign_at(e1, name, v, i, k);
        assert(e1.update(i, e1[i].update(k, (name, v))).push(e[e.len() - 1]) =~= e.update(
            i,
            e[i].update(k, (name, v)),
        ));
    }
}

/// Assignment fails when no scope binds the name.
proof fn lemma_assign_none(e: Seq<SpecScope>, name: Seq<char>, v: SpecValue)
    requires
        forall|j: int| 0 <= j < e.len() ==> scope_index(#[trigger] e[j], name) == -1,
    ensures
        env_assign(e, name, v) is None,
    decreases e.len(),
{
    if e.len() > 0 {
        let e1 = e.subrange(0, e.len() - 1);
        assert forall|j: int| 0 <= j < e1.len() implies scope_index(#[trigger] e1[j], name) == -1 by {
            assert(e1[j] == e[j]);
        }
        assert(scope_index(e[e.len() - 1], name) == -1);
        lemma_assign_none(e1, name, v);
    }
}

} // verus!
