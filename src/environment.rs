use vstd::prelude::*;

use crate::object::{Object, Value};

verus! {

/// One scope as the contracts see it: its bindings in the order they were
/// made, and the index of the enclosing scope.
pub struct ScopeView {
    pub store: Seq<(Seq<char>, Value)>,
    pub outer: Option<nat>,
}

/// The whole scope table and the index of the scope that is current.
pub struct EnvView {
    pub scopes: Seq<ScopeView>,
    pub current: nat,
}

/// The latest binding of `name` in one scope.
pub open spec fn store_lookup(store: Seq<(Seq<char>, Value)>, name: Seq<char>) -> Option<Value>
    decreases store.len(),
{
    if store.len() == 0 {
        None
    } else if store.last().0 == name {
        Some(store.last().1)
    } else {
        store_lookup(store.drop_last(), name)
    }
}

/// The binding of `name` seen from scope `s`: its own, else the one seen
/// from its enclosing scope. An enclosing scope is always older, so has a
/// smaller index.
pub open spec fn chain_lookup(scopes: Seq<ScopeView>, s: int, name: Seq<char>) -> Option<Value>
    decreases s,
{
    if s < 0 || s >= scopes.len() {
        None
    } else {
        match store_lookup(scopes[s].store, name) {
            Some(v) => Some(v),
            None => match scopes[s].outer {
                Some(p) => if p < s {
                    chain_lookup(scopes, p as int, name)
                } else {
                    None
                },
                None => None,
            },
        }
    }
}

impl EnvView {
    pub open spec fn get(self, name: Seq<char>) -> Option<Value> {
        chain_lookup(self.scopes, self.current as int, name)
    }

    /// Binds `name` in the current scope.
    pub open spec fn set(self, name: Seq<char>, v: Value) -> EnvView {
        let sc = self.scopes[self.current as int];
        EnvView {
            scopes: self.scopes.update(
                self.current as int,
                ScopeView { store: sc.store.push((name, v)), outer: sc.outer },
            ),
            current: self.current,
        }
    }

    /// Opens a new, empty scope enclosed by scope `outer` and makes it current.
    pub open spec fn enclose(self, outer: nat) -> EnvView {
        EnvView {
            scopes: self.scopes.push(ScopeView { store: Seq::empty(), outer: Some(outer) }),
            current: self.scopes.len(),
        }
    }

    /// The same scopes, with scope `c` current.
    pub open spec fn with_current(self, c: nat) -> EnvView {
        EnvView { scopes: self.scopes, current: c }
    }

    pub open spec fn wf(self) -> bool {
        self.current < self.scopes.len()
    }
}

struct Binding<'a> {
    name: String,
    value: Object<'a>,
}

struct Scope<'a> {
    store: Vec<Binding<'a>>,
    outer: Option<usize>,
}

/// Name bindings organised as a table of scopes. Each scope may name an
/// enclosing one; lookups walk outward, bindings go to the current scope.
/// Function values refer to the scope they were made in by its index, so a
/// scope lives as long as the table.
pub struct Environment<'a> {
    scopes: Vec<Scope<'a>>,
    current: usize,
}

spec fn binding_view<'a>(b: Binding<'a>) -> (Seq<char>, Value) {
    (b.name@, b.value@)
}

spec fn scope_view<'a>(s: Scope<'a>) -> ScopeView {
    ScopeView {
        store: s.store@.map_values(|b: Binding<'a>| binding_view(b)),
        outer: match s.outer {
            Some(p) => Some(p as nat),
            None => None,
        },
    }
}

impl<'a> View for Environment<'a> {
    type V = EnvView;

    closed spec fn view(&self) -> EnvView {
        EnvView {
            scopes: self.scopes@.map_values(|s: Scope<'a>| scope_view(s)),
            current: self.current as nat,
        }
    }
}

impl<'a> Environment<'a> {
    /// A table holding one empty, current scope: the global one.
    pub fn new() -> (r: Self)
        ensures
            r@ == (EnvView { scopes: seq![ScopeView { store: Seq::empty(), outer: None }], current: 0 }),
    {
        let mut scopes: Vec<Scope<'a>> = Vec::new();
        scopes.push(Scope { store: Vec::new(), outer: None });
        let r = Environment { scopes, current: 0 };
        assert(r@.scopes[0].store =~= Seq::empty());
        assert(r@.scopes =~= seq![ScopeView { store: Seq::empty(), outer: None }]);
        r
    }

    /// The index of the current scope.
    pub fn current(&self) -> (r: usize)
        ensures
            r == self@.current,
    {
        self.current
    }

    /// Makes scope `c` current.
    pub fn set_current(&mut self, c: usize)
        requires
            c < old(self)@.scopes.len(),
        ensures
            final(self)@ == old(self)@.with_current(c as nat),
    {
        self.current = c;
        assert(self@.scopes =~= old(self)@.scopes);
    }

    /// The value bound to `name` in the current scope or, failing that, in
    /// the nearest enclosing scope that binds it.
    pub fn get(&self, name: &str) -> (r: Option<Object<'a>>)
        requires
            self@.wf(),
        ensures
            match r {
                Some(o) => self@.get(name@) == Some(o@),
                None => self@.get(name@) is None,
            },
    {
        let ghost scopes = self@.scopes;
        let mut s: usize = self.current;
        loop
            invariant
                s < self.scopes@.len(),
                scopes == self@.scopes,
                chain_lookup(scopes, s as int, name@) == self@.get(name@),
            decreases s,
        {
            let scope = &self.scopes[s];
            let ghost sv = scopes[s as int];
            assert(sv == scope_view(*scope));
            let mut j: usize = scope.store.len();
            assert(sv.store.subrange(0, j as int) =~= sv.store);
            while j > 0
                invariant
                    j <= scope.store@.len(),
                    sv == scope_view(*scope),
                    s < scopes.len(),
                    sv == scopes[s as int],
                    scopes == self@.scopes,
                    chain_lookup(scopes, s as int, name@) == self@.get(name@),
                    store_lookup(sv.store, name@) == store_lookup(
                        sv.store.subrange(0, j as int),
                        name@,
                    ),
                decreases j,
            {
                let b = &scope.store[j - 1];
                let ghost pre = sv.store.subrange(0, j as int);
                assert(pre.last() == binding_view(*b));
                assert(pre.drop_last() =~= sv.store.subrange(0, j - 1));
                if crate::token::str_eq(b.name.as_str(), name) {
                    let o = b.value.copy();
                    assert(pre.last().0 == name@);
                    assert(store_lookup(pre, name@) == Some(o@));
                    assert(chain_lookup(scopes, s as int, name@) == Some(o@));
                    return Some(o);
                }
                j = j - 1;
            }
            assert(sv.store.subrange(0, 0) =~= Seq::<(Seq<char>, Value)>::empty());
            match scope.outer {
                Some(p) => {
                    if p < s {
                        s = p;
                    } else {
                        return None;
                    }
                },
                None => {
                    return None;
                },
            }
        }
    }

    /// Binds `name` to `obj` in the current scope, hiding any earlier
    /// binding of the name there or further out; returns the value that the
    /// current scope itself bound to `name` before, if any.
    pub fn set(&mut self, name: &str, obj: Object<'a>) -> (r: Option<Object<'a>>)
        requires
            old(self)@.wf(),
        ensures
            final(self)@ == old(self)@.set(name@, obj@),
            match r {
                Some(o) => store_lookup(old(self)@.scopes[old(self)@.current as int].store, name@)
                    == Some(o@),
                None => store_lookup(
                    old(self)@.scopes[old(self)@.current as int].store,
                    name@,
                ) is None,
            },
    {
        let c = self.current;
        let previous = self.lookup_here(name);
        let ghost old_view = self@;
        let ghost ov = obj@;
        let mut scope = Scope { store: Vec::new(), outer: None };
        std::mem::swap(&mut scope, &mut self.scopes[c]);
        let ghost before = scope.store@;
        scope.store.push(Binding { name: crate::token::owned(name), value: obj });
        std::mem::swap(&mut scope, &mut self.scopes[c]);
        proof {
            assert(scope_view(self.scopes@[c as int]).store =~= old_view.scopes[c as int].store.push(
                (name@, ov),
            ));
            assert(self@.scopes =~= old_view.set(name@, ov).scopes);
        }
        previous
    }

    fn lookup_here(&self, name: &str) -> (r: Option<Object<'a>>)
        requires
            self@.wf(),
        ensures
            match r {
                Some(o) => store_lookup(self@.scopes[self@.current as int].store, name@) == Some(
                    o@,
                ),
                None => store_lookup(self@.scopes[self@.current as int].store, name@) is None,
            },
    {
        let scope = &self.scopes[self.current];
        let ghost sv = self@.scopes[self.current as int];
        assert(sv == scope_view(*scope));
        let mut j: usize = scope.store.len();
        assert(sv.store.subrange(0, j as int) =~= sv.store);
        while j > 0
            invariant
                j <= scope.store@.len(),
                sv == scope_view(*scope),
                self@.wf(),
                sv == self@.scopes[self@.current as int],
                store_lookup(sv.store, name@) == store_lookup(sv.store.subrange(0, j as int), name@),
            decreases j,
        {
            let b = &scope.store[j - 1];
            let ghost pre = sv.store.subrange(0, j as int);
            assert(pre.last() == binding_view(*b));
            assert(pre.drop_last() =~= sv.store.subrange(0, j - 1));
            if crate::token::str_eq(b.name.as_str(), name) {
                let o = b.value.copy();
                assert(pre.last().0 == name@);
                assert(store_lookup(pre, name@) == Some(o@));
                return Some(o);
            }
            j = j - 1;
        }
        assert(sv.store.subrange(0, 0) =~= Seq::<(Seq<char>, Value)>::empty());
        None
    }

    /// Opens a new, empty scope enclosed by scope `outer`, makes it current,
    /// and returns its index.
    pub fn new_enclosed(&mut self, outer: usize) -> (r: usize)
        requires
            old(self)@.scopes.len() < usize::MAX,
        ensures
            final(self)@ == old(self)@.enclose(outer as nat),
            r == old(self)@.scopes.len(),
    {
        let ghost old_view = self@;
        let r = self.scopes.len();
        self.scopes.push(Scope { store: Vec::new(), outer: Some(outer) });
        self.current = r;
        proof {
            assert(scope_view(self.scopes@[r as int]).store =~= Seq::<(Seq<char>, Value)>::empty());
            assert(self@.scopes =~= old_view.enclose(outer as nat).scopes);
        }
        r
    }

    /// The number of scopes in the table.
    pub fn scope_count(&self) -> (r: usize)
        ensures
            r == self@.scopes.len(),
    {
        self.scopes.len()
    }
}

} // verus!
