//! The lexical [`Env`] scope chain: a single [`Binding`], and why an
//! [`Env::assign`] can fail ([`AssignError`]).
//!
//! The chain is modelled as a sequence of finite maps from names to bindings,
//! innermost last. Every operation is specified against that model.
use vstd::prelude::*;

verus! {

/// Why an [`Env::assign`] failed, so the caller can phrase the right
/// diagnostic.
#[derive(Clone, Copy, Debug, PartialEq, Eq, Structural)]
pub enum AssignError {
    /// No binding of that name exists in any enclosing scope.
    NotFound,
    /// The nearest binding exists but is immutable (`let`, not `comptime var`).
    Immutable,
}

/// A single name binding within a scope.
#[derive(Clone, Debug, PartialEq)]
pub struct Binding<T> {
    /// The bound value.
    pub value: T,
    /// Whether the binding may be reassigned (`comptime var` vs `let`).
    pub mutable: bool,
}

/// One scope: a name → binding map, stored as an association list in which
/// the LAST entry for a name is the live one.
pub open spec fn scope_map<T>(s: Seq<(String, Binding<T>)>) -> Map<Seq<char>, Binding<T>>
    decreases s.len(),
{
    if s.len() == 0 {
        Map::empty()
    } else {
        scope_map(s.drop_last()).insert(s.last().0@, s.last().1)
    }
}

/// The nearest (innermost) binding of `name` in a chain of scopes.
pub open spec fn chain_lookup<T>(chain: Seq<Map<Seq<char>, Binding<T>>>, name: Seq<char>) -> Option<
    Binding<T>,
>
    decreases chain.len(),
{
    if chain.len() == 0 {
        None
    } else if chain.last().contains_key(name) {
        Some(chain.last()[name])
    } else {
        chain_lookup(chain.drop_last(), name)
    }
}

/// The index of the innermost scope that binds `name`.
pub open spec fn chain_nearest<T>(chain: Seq<Map<Seq<char>, Binding<T>>>, name: Seq<char>) -> Option<
    int,
>
    decreases chain.len(),
{
    if chain.len() == 0 {
        None
    } else if chain.last().contains_key(name) {
        Some(chain.len() - 1)
    } else {
        chain_nearest(chain.drop_last(), name)
    }
}

/// A lexical scope chain: a stack of scopes, innermost last. Never empty.
///
/// Cloning copies every scope, so a clone is independent of its source:
/// a lambda that captures an `Env` snapshots it by value.
#[derive(Debug)]
pub struct Env<T> {
    scopes: Vec<Vec<(String, Binding<T>)>>,
}

/// Two scopes hold the same names in the same order, with the same
/// mutability, each value of `b` a clone of the value of `a`.
pub open spec fn entries_cloned<T: Clone>(a: Seq<(String, Binding<T>)>, b: Seq<(String, Binding<T>)>) -> bool {
    &&& a.len() == b.len()
    &&& forall|i: int|
        0 <= i < a.len() ==> {
            &&& (#[trigger] b[i]).0@ == a[i].0@
            &&& b[i].1.mutable == a[i].1.mutable
            &&& cloned(a[i].1.value, b[i].1.value)
        }
}

/// Two scope chains bind the same names at the same depths, with the same
/// mutability, each value of `b` a clone of the value of `a`.
pub open spec fn chain_cloned<T: Clone>(a: Seq<Map<Seq<char>, Binding<T>>>, b: Seq<Map<Seq<char>, Binding<T>>>) -> bool {
    &&& a.len() == b.len()
    &&& forall|i: int|
        0 <= i < a.len() ==> {
            &&& (#[trigger] b[i]).dom() == a[i].dom()
            &&& forall|k: Seq<char>|
                #[trigger] a[i].contains_key(k) ==> b[i][k].mutable == a[i][k].mutable && cloned(
                    a[i][k].value,
                    b[i][k].value,
                )
        }
}

proof fn lemma_entries_cloned_maps<T: Clone>(a: Seq<(String, Binding<T>)>, b: Seq<(String, Binding<T>)>)
    requires
        entries_cloned(a, b),
    ensures
        scope_map(b).dom() == scope_map(a).dom(),
        forall|k: Seq<char>|
            #[trigger] scope_map(a).contains_key(k) ==> scope_map(b)[k].mutable == scope_map(a)[k].mutable
                && cloned(scope_map(a)[k].value, scope_map(b)[k].value),
    decreases a.len(),
{
    if a.len() > 0 {
        let (a0, b0) = (a.drop_last(), b.drop_last());
        assert(entries_cloned(a0, b0)) by {
            assert forall|i: int| 0 <= i < a0.len() implies (#[trigger] b0[i]).0@ == a0[i].0@ && b0[i].1.mutable
                == a0[i].1.mutable && cloned(a0[i].1.value, b0[i].1.value) by {
                assert(b0[i] == b[i] && a0[i] == a[i]);
            }
        }
        lemma_entries_cloned_maps(a0, b0);
        assert(b.last() == b[a.len() - 1] && a.last() == a[a.len() - 1]);
        assert(scope_map(b).dom() =~= scope_map(a).dom());
    }
}

fn clone_scope<T: Clone>(s: &Vec<(String, Binding<T>)>) -> (r: Vec<(String, Binding<T>)>)
    ensures
        entries_cloned(s@, r@),
{
    let mut r: Vec<(String, Binding<T>)> = Vec::new();
    let mut i: usize = 0;
    while i < s.len()
        invariant
            i <= s@.len(),
            entries_cloned(s@.subrange(0, i as int), r@),
        decreases s@.len() - i,
    {
        let name = s[i].0.clone();
        let value = s[i].1.value.clone();
        let ghost before = r@;
        r.push((name, Binding { value, mutable: s[i].1.mutable }));
        assert forall|j: int| 0 <= j < i + 1 implies (#[trigger] r@[j]).0@ == s@.subrange(0, i + 1)[j].0@
            && r@[j].1.mutable == s@.subrange(0, i + 1)[j].1.mutable && cloned(
            s@.subrange(0, i + 1)[j].1.value,
            r@[j].1.value,
        ) by {
            if j < i {
                assert(r@[j] == before[j]);
                assert(s@.subrange(0, i as int)[j] == s@.subrange(0, i + 1)[j]);
            }
        }
        i = i + 1;
    }
    assert(s@.subrange(0, s@.len() as int) =~= s@);
    r
}

impl<T: Clone> Clone for Env<T> {
    /// A deep copy of every scope: the same names at the same depths, with
    /// the same mutability, each value a clone.
    fn clone(&self) -> (r: Self)
        ensures
            r.depth() == self.depth(),
            chain_cloned(self@, r@),
    {
        proof {
            use_type_invariant(self);
        }
        let mut scopes: Vec<Vec<(String, Binding<T>)>> = Vec::new();
        let mut i: usize = 0;
        while i < self.scopes.len()
            invariant
                i <= self.scopes@.len(),
                self.scopes@.len() >= 1,
                scopes@.len() == i,
                forall|j: int| 0 <= j < i ==> entries_cloned(self.scopes@[j]@, #[trigger] scopes@[j]@),
            decreases self.scopes@.len() - i,
        {
            let c = clone_scope(&self.scopes[i]);
            scopes.push(c);
            i = i + 1;
        }
        let r = Env { scopes };
        proof {
            assert forall|j: int| 0 <= j < self@.len() implies (#[trigger] r@[j]).dom() == self@[j].dom()
                && forall|k: Seq<char>|
                #[trigger] self@[j].contains_key(k) ==> r@[j][k].mutable == self@[j][k].mutable && cloned(
                    self@[j][k].value,
                    r@[j][k].value,
                ) by {
                lemma_entries_cloned_maps(self.scopes@[j]@, r.scopes@[j]@);
            }
        }
        r
    }
}

impl<T> View for Env<T> {
    type V = Seq<Map<Seq<char>, Binding<T>>>;

    closed spec fn view(&self) -> Seq<Map<Seq<char>, Binding<T>>> {
        self.scopes@.map_values(|s: Vec<(String, Binding<T>)>| scope_map(s@))
    }
}

/// Whether index `k` holds the last entry for `name` in `s`.
spec fn last_entry_at<T>(s: Seq<(String, Binding<T>)>, name: Seq<char>, k: int) -> bool {
    &&& 0 <= k < s.len()
    &&& s[k].0@ == name
    &&& forall|j: int| k < j < s.len() ==> s[j].0@ != name
}

proof fn lemma_scope_map_absent<T>(s: Seq<(String, Binding<T>)>, name: Seq<char>)
    requires
        forall|j: int| 0 <= j < s.len() ==> s[j].0@ != name,
    ensures
        !scope_map(s).contains_key(name),
    decreases s.len(),
{
    if s.len() > 0 {
        lemma_scope_map_absent(s.drop_last(), name);
    }
}

proof fn lemma_scope_map_last_entry<T>(s: Seq<(String, Binding<T>)>, name: Seq<char>, k: int)
    requires
        last_entry_at(s, name, k),
    ensures
        scope_map(s).contains_key(name),
        scope_map(s)[name] == s[k].1,
    decreases s.len(),
{
    if k < s.len() - 1 {
        lemma_scope_map_last_entry(s.drop_last(), name, k);
    }
}

proof fn lemma_scope_map_update<T>(
    s: Seq<(String, Binding<T>)>,
    name: Seq<char>,
    k: int,
    entry: (String, Binding<T>),
)
    requires
        last_entry_at(s, name, k),
        entry.0@ == name,
    ensures
        scope_map(s.update(k, entry)) == scope_map(s).insert(name, entry.1),
    decreases s.len(),
{
    let t = s.update(k, entry);
    if k == s.len() - 1 {
        assert(t.drop_last() =~= s.drop_last());
        assert(scope_map(s).insert(name, entry.1) =~= scope_map(s.drop_last()).insert(
            name,
            entry.1,
        ));
    } else {
        assert(t.drop_last() =~= s.drop_last().update(k, entry));
        lemma_scope_map_update(s.drop_last(), name, k, entry);
        assert(s.last().0@ != name);
        assert(scope_map(t) =~= scope_map(s).insert(name, entry.1));
    }
}

proof fn lemma_lookup_skips_top<T>(chain: Seq<Map<Seq<char>, Binding<T>>>, name: Seq<char>, i: int)
    requires
        0 <= i <= chain.len(),
        forall|j: int| i <= j < chain.len() ==> !(#[trigger] chain[j]).contains_key(name),
    ensures
        chain_lookup(chain, name) == chain_lookup(chain.take(i), name),
        chain_nearest(chain, name) == chain_nearest(chain.take(i), name),
    decreases chain.len() - i,
{
    if i < chain.len() {
        assert(!chain[chain.len() - 1].contains_key(name));
        lemma_lookup_skips_top(chain.drop_last(), name, i);
        assert(chain.drop_last().take(i) =~= chain.take(i));
    } else {
        assert(chain.take(i) =~= chain);
    }
}

pub(crate) proof fn lemma_nearest_in_range<T>(chain: Seq<Map<Seq<char>, Binding<T>>>, name: Seq<char>)
    ensures
        match chain_nearest(chain, name) {
            Some(i) => 0 <= i < chain.len() && chain[i].contains_key(name) && chain_lookup(
                chain,
                name,
            ) == Some(chain[i][name]) && forall|j: int|
                i < j < chain.len() ==> !(#[trigger] chain[j]).contains_key(name),
            None => chain_lookup(chain, name) is None && forall|j: int|
                0 <= j < chain.len() ==> !(#[trigger] chain[j]).contains_key(name),
        },
    decreases chain.len(),
{
    if chain.len() > 0 && !chain.last().contains_key(name) {
        let rest = chain.drop_last();
        lemma_nearest_in_range(rest, name);
        assert forall|j: int| 0 <= j < rest.len() implies rest[j] == chain[j] by {}
    }
}

impl<T> Env<T> {
    #[verifier::type_invariant]
    spec fn inv(self) -> bool {
        self.scopes@.len() >= 1
    }

    /// The number of scopes in the chain (always at least one).
    pub closed spec fn depth(&self) -> nat {
        self.scopes@.len()
    }

    /// Create a fresh environment with a single (global) scope.
    pub fn new() -> (env: Self)
        ensures
            env@ == seq![Map::<Seq<char>, Binding<T>>::empty()],
    {
        let env = Env { scopes: vec![Vec::new()] };
        assert(env@ =~= seq![Map::<Seq<char>, Binding<T>>::empty()]) by {
            assert(scope_map(env.scopes@[0]@) =~= Map::<Seq<char>, Binding<T>>::empty());
        }
        env
    }

    /// Push a new innermost scope.
    pub fn push_scope(&mut self)
        ensures
            final(self)@ == old(self)@.push(Map::empty()),
            old(self)@.len() >= 1,
    {
        proof {
            use_type_invariant(&*self);
        }
        let mut scopes: Vec<Vec<(String, Binding<T>)>> = vec![Vec::new()];
        std::mem::swap(&mut scopes, &mut self.scopes);
        scopes.push(Vec::new());
        self.scopes = scopes;
        assert(self@ =~= old(self)@.push(Map::empty())) by {
            assert(scope_map(self.scopes@.last()@) =~= Map::<Seq<char>, Binding<T>>::empty());
        }
    }

    /// Pop the innermost scope, discarding its bindings. No-op if only the
    /// global scope remains (the chain is never left empty).
    pub fn pop_scope(&mut self)
        ensures
            old(self)@.len() > 1 ==> final(self)@ == old(self)@.drop_last(),
            old(self)@.len() <= 1 ==> final(self)@ == old(self)@,
            final(self)@.len() >= 1,
    {
        proof {
            use_type_invariant(&*self);
        }
        if self.scopes.len() > 1 {
            let mut scopes: Vec<Vec<(String, Binding<T>)>> = vec![Vec::new()];
            std::mem::swap(&mut scopes, &mut self.scopes);
            scopes.pop();
            self.scopes = scopes;
            assert(self@ =~= old(self)@.drop_last());
        }
        proof {
            use_type_invariant(&*self);
        }
    }

    /// Bind `name` to `value` in the innermost scope, shadowing any outer
    /// binding of the same name. Re-defining a name already in the innermost
    /// scope overwrites it.
    pub fn define(&mut self, name: &str, value: T, mutable: bool)
        ensures
            final(self)@ == old(self)@.update(
                old(self)@.len() - 1,
                old(self)@.last().insert(name@, Binding { value, mutable }),
            ),
            old(self)@.len() >= 1,
    {
        proof {
            use_type_invariant(&*self);
        }
        let key = name.to_owned();
        let mut scopes: Vec<Vec<(String, Binding<T>)>> = vec![Vec::new()];
        std::mem::swap(&mut scopes, &mut self.scopes);
        let ghost chain = old(self)@;
        assert(chain =~= scopes@.map_values(|s: Vec<(String, Binding<T>)>| scope_map(s@)));
        let mut scope = scopes.pop().unwrap();
        let ghost old_scope = scope@;
        let entry = (key, Binding { value, mutable });
        // Find the live entry for `name`, searching from the end.
        let mut k = scope.len();
        let mut found = false;
        while k > 0
            invariant_except_break
                k <= scope@.len(),
                scope@ == old_scope,
                entry.0@ == name@,
                !found,
                forall|j: int| k <= j < scope@.len() ==> scope@[j].0@ != name@,
            ensures
                scope@ == old_scope,
                found ==> last_entry_at(scope@, name@, k as int),
                !found ==> forall|j: int| 0 <= j < scope@.len() ==> scope@[j].0@ != name@,
            decreases k,
        {
            if scope[k - 1].0 == entry.0 {
                k = k - 1;
                found = true;
                break;
            }
            k = k - 1;
        }
        if found {
            proof {
                lemma_scope_map_update(old_scope, name@, k as int, entry);
            }
            scope.set(k, entry);
        } else {
            proof {
                lemma_scope_map_absent(old_scope, name@);
                assert(old_scope.push(entry).drop_last() =~= old_scope);
            }
            scope.push(entry);
        }
        assert(scope_map(scope@) == chain.last().insert(name@, Binding { value, mutable }));
        scopes.push(scope);
        assert(scopes@.len() == chain.len());
        self.scopes = scopes;
        assert(self@ =~= chain.update(
            chain.len() - 1,
            chain.last().insert(name@, Binding { value, mutable }),
        ));
    }

    /// Look up `name`, searching innermost scope outward. Returns the nearest
    /// binding's value, or `None` if unbound.
    pub fn lookup(&self, name: &str) -> (r: Option<&T>)
        ensures
            match chain_lookup(self@, name@) {
                Some(b) => r == Some(&b.value),
                None => r is None,
            },
            self@.len() >= 1,
    {
        proof {
            use_type_invariant(self);
        }
        let key = name.to_owned();
        let mut i = self.scopes.len();
        while i > 0
            invariant
                i <= self.scopes@.len(),
                key@ == name@,
                self@.len() == self.scopes@.len(),
                forall|j: int|
                    0 <= j < self@.len() ==> #[trigger] self@[j] == scope_map(self.scopes@[j]@),
                forall|j: int| i <= j < self@.len() ==> !(#[trigger] self@[j]).contains_key(name@),
            decreases i,
        {
            let scope = &self.scopes[i - 1];
            let mut k = scope.len();
            while k > 0
                invariant
                    k <= scope@.len(),
                    scope@ == self.scopes@[i - 1]@,
                    key@ == name@,
                    1 <= i <= self@.len(),
                    self@.len() == self.scopes@.len(),
                    self@[i - 1] == scope_map(self.scopes@[i - 1]@),
                    forall|j: int| i <= j < self@.len() ==> !(#[trigger] self@[j]).contains_key(name@),
                    forall|j: int| k <= j < scope@.len() ==> scope@[j].0@ != name@,
                decreases k,
            {
                if scope[k - 1].0 == key {
                    proof {
                        lemma_scope_map_last_entry(scope@, name@, k - 1);
                        lemma_lookup_skips_top(self@, name@, i as int);
                        assert(self@.take(i as int).last() == self@[i - 1]);
                    }
                    return Some(&scope[k - 1].1.value);
                }
                k = k - 1;
            }
            proof {
                lemma_scope_map_absent(scope@, name@);
            }
            i = i - 1;
        }
        proof {
            lemma_lookup_skips_top(self@, name@, 0);
        }
        None
    }

    /// Assign `value` to the nearest existing binding of `name`.
    ///
    /// Returns [`AssignError`] if `name` is unbound or its binding is
    /// immutable; the chain is then unchanged. On success the binding's value
    /// is replaced.
    pub fn assign(&mut self, name: &str, value: T) -> (r: Result<(), AssignError>)
        ensures
            match chain_nearest(old(self)@, name@) {
                None => r == Err::<(), AssignError>(AssignError::NotFound) && final(self)@ == old(
                    self,
                )@,
                Some(i) => if old(self)@[i][name@].mutable {
                    r is Ok && final(self)@ == old(self)@.update(
                        i,
                        old(self)@[i].insert(name@, Binding { value, mutable: true }),
                    )
                } else {
                    r == Err::<(), AssignError>(AssignError::Immutable) && final(self)@ == old(
                        self,
                    )@
                },
            },
    {
        proof {
            use_type_invariant(&*self);
            lemma_nearest_in_range(self@, name@);
        }
        let key = name.to_owned();
        let ghost chain = old(self)@;
        let mut i = self.scopes.len();
        while i > 0
            invariant
                i <= self.scopes@.len(),
                key@ == name@,
                self@ == chain,
                chain == old(self)@,
                self.scopes@.len() >= 1,
                chain.len() == self.scopes@.len(),
                forall|j: int|
                    0 <= j < chain.len() ==> #[trigger] chain[j] == scope_map(self.scopes@[j]@),
                forall|j: int| i <= j < chain.len() ==> !(#[trigger] chain[j]).contains_key(name@),
            decreases i,
        {
            let n = self.scopes[i - 1].len();
            let mut k = n;
            while k > 0
                invariant
                    k <= n,
                    n == self.scopes@[i - 1]@.len(),
                    1 <= i <= self.scopes@.len(),
                    key@ == name@,
                    self@ == chain,
                    chain == old(self)@,
                    chain.len() == self.scopes@.len(),
                    chain[i - 1] == scope_map(self.scopes@[i - 1]@),
                    forall|j: int| i <= j < chain.len() ==> !(#[trigger] chain[j]).contains_key(name@),
                    forall|j: int| k <= j < n ==> (#[trigger] self.scopes@[i - 1]@[j]).0@ != name@,
                decreases k,
            {
                if self.scopes[i - 1][k - 1].0 == key {
                    let ghost s = self.scopes@[i - 1]@;
                    proof {
                        lemma_scope_map_last_entry(s, name@, k - 1);
                        lemma_lookup_skips_top(chain, name@, i as int);
                        assert(chain.take(i as int).len() == i);
                        assert(chain.take(i as int).last() == chain[i - 1]);
                        assert(chain_nearest(chain, name@) == Some(i - 1));
                    }
                    if !self.scopes[i - 1][k - 1].1.mutable {
                        return Err(AssignError::Immutable);
                    }
                    let ghost entry = (self.scopes@[i - 1]@[k - 1].0, Binding { value, mutable: true });
                    proof {
                        lemma_scope_map_update(s, name@, k - 1, entry);
                    }
                    let mut scopes: Vec<Vec<(String, Binding<T>)>> = vec![Vec::new()];
                    std::mem::swap(&mut scopes, &mut self.scopes);
                    scopes[i - 1][k - 1].1.value = value;
                    assert(scopes@[i - 1]@ == s.update(k - 1, entry));
                    self.scopes = scopes;
                    assert(self@ =~= chain.update(
                        i - 1,
                        chain[i - 1].insert(name@, Binding { value, mutable: true }),
                    ));
                    return Ok(());
                }
                k = k - 1;
            }
            proof {
                lemma_scope_map_absent(self.scopes@[i - 1]@, name@);
            }
            i = i - 1;
        }
        proof {
            lemma_lookup_skips_top(chain, name@, 0);
        }
        Err(AssignError::NotFound)
    }
}


/// The chain after `define(name, value, mutable)`.
pub open spec fn chain_define<T>(
    chain: Seq<Map<Seq<char>, Binding<T>>>,
    name: Seq<char>,
    b: Binding<T>,
) -> Seq<Map<Seq<char>, Binding<T>>> {
    chain.update(chain.len() - 1, chain.last().insert(name, b))
}

/// A name looks up to what it was last defined as: defining in the innermost
/// scope shadows every outer binding of the same name.
pub proof fn law_lookup_after_define<T>(chain: Seq<Map<Seq<char>, Binding<T>>>, name: Seq<char>, b: Binding<T>)
    requires
        chain.len() >= 1,
    ensures
        chain_lookup(chain_define(chain, name, b), name) == Some(b),
{
}

/// Defining one name leaves the lookup of every other name unchanged.
pub proof fn law_define_keeps_other_names<T>(
    chain: Seq<Map<Seq<char>, Binding<T>>>,
    name: Seq<char>,
    other: Seq<char>,
    b: Binding<T>,
)
    requires
        chain.len() >= 1,
        name != other,
    ensures
        chain_lookup(chain_define(chain, name, b), other) == chain_lookup(chain, other),
{
    let d = chain_define(chain, name, b);
    assert(d.drop_last() =~= chain.drop_last());
    assert(d.last().contains_key(other) == chain.last().contains_key(other));
    if chain.last().contains_key(other) {
        assert(d.last()[other] == chain.last()[other]);
    }
}

/// Pushing a scope, defining in it and popping it restores the chain exactly:
/// the outer binding of a shadowed name is back.
pub proof fn law_pop_undoes_push_and_define<T>(
    chain: Seq<Map<Seq<char>, Binding<T>>>,
    name: Seq<char>,
    b: Binding<T>,
)
    requires
        chain.len() >= 1,
    ensures
        chain_define(chain.push(Map::empty()), name, b).drop_last() == chain,
        chain_lookup(chain_define(chain.push(Map::empty()), name, b).drop_last(), name)
            == chain_lookup(chain, name),
{
    assert(chain_define(chain.push(Map::empty()), name, b).drop_last() =~= chain);
}

/// A successful assignment is what the name then looks up to, and the chain
/// keeps its depth: only the nearest binding changes.
pub proof fn law_lookup_after_assign<T>(chain: Seq<Map<Seq<char>, Binding<T>>>, name: Seq<char>, value: T)
    requires
        chain_nearest(chain, name) is Some,
    ensures
        ({
            let i = chain_nearest(chain, name)->0;
            let after = chain.update(i, chain[i].insert(name, Binding { value, mutable: true }));
            &&& chain_lookup(after, name) == Some(Binding { value, mutable: true })
            &&& after.len() == chain.len()
            &&& forall|j: int| 0 <= j < chain.len() && j != i ==> after[j] == chain[j]
        }),
{
    lemma_nearest_in_range(chain, name);
    let i = chain_nearest(chain, name)->0;
    let after = chain.update(i, chain[i].insert(name, Binding { value, mutable: true }));
    assert forall|j: int| i < j < after.len() implies !(#[trigger] after[j]).contains_key(name) by {
        assert(after[j] == chain[j]);
    }
    lemma_lookup_skips_top(after, name, i + 1);
    assert(after.take(i + 1).last() == after[i]);
}


/// One scope-chain operation, as the view sees it.
pub enum EnvOp<T> {
    Push,
    Pop,
    Define(Seq<char>, Binding<T>),
    Assign(Seq<char>, T),
}

/// The chain after one operation, exactly as `push_scope`, `pop_scope`,
/// `define` and `assign` state it.
pub open spec fn env_step<T>(chain: Seq<Map<Seq<char>, Binding<T>>>, op: EnvOp<T>) -> Seq<Map<Seq<char>, Binding<T>>> {
    match op {
        EnvOp::Push => chain.push(Map::empty()),
        EnvOp::Pop => if chain.len() > 1 {
            chain.drop_last()
        } else {
            chain
        },
        EnvOp::Define(n, b) => chain_define(chain, n, b),
        EnvOp::Assign(n, v) => match chain_nearest(chain, n) {
            Some(i) => if chain[i][n].mutable {
                chain.update(i, chain[i].insert(n, Binding { value: v, mutable: true }))
            } else {
                chain
            },
            None => chain,
        },
    }
}

/// The chain after a sequence of operations.
pub open spec fn env_run<T>(chain: Seq<Map<Seq<char>, Binding<T>>>, ops: Seq<EnvOp<T>>) -> Seq<Map<Seq<char>, Binding<T>>>
    decreases ops.len(),
{
    if ops.len() == 0 {
        chain
    } else {
        env_step(env_run(chain, ops.drop_last()), ops.last())
    }
}

/// The chain after a sequence of defines.
pub open spec fn defines_all<T>(chain: Seq<Map<Seq<char>, Binding<T>>>, ds: Seq<(Seq<char>, Binding<T>)>) -> Seq<Map<Seq<char>, Binding<T>>>
    decreases ds.len(),
{
    if ds.len() == 0 {
        chain
    } else {
        chain_define(defines_all(chain, ds.drop_last()), ds.last().0, ds.last().1)
    }
}

proof fn lemma_defines_keep_outer<T>(chain: Seq<Map<Seq<char>, Binding<T>>>, ds: Seq<(Seq<char>, Binding<T>)>)
    requires
        chain.len() >= 1,
    ensures
        defines_all(chain, ds).len() == chain.len(),
        defines_all(chain, ds).drop_last() == chain.drop_last(),
    decreases ds.len(),
{
    if ds.len() > 0 {
        lemma_defines_keep_outer(chain, ds.drop_last());
        let c = defines_all(chain, ds.drop_last());
        assert(chain_define(c, ds.last().0, ds.last().1).drop_last() =~= c.drop_last());
    }
}

/// Pushing a scope, making any number of definitions in it and popping it
/// restores the chain exactly: every binding made in between is gone and
/// every binding it shadowed is back.
pub proof fn law_pop_undoes_push_and_defines<T>(chain: Seq<Map<Seq<char>, Binding<T>>>, ds: Seq<(Seq<char>, Binding<T>)>)
    requires
        chain.len() >= 1,
    ensures
        env_step(defines_all(chain.push(Map::empty()), ds), EnvOp::Pop) == chain,
{
    lemma_defines_keep_outer(chain.push(Map::empty()), ds);
    assert(chain.push(Map::<Seq<char>, Binding<T>>::empty()).drop_last() =~= chain);
}

/// The operation neither drops below depth `d` nor writes `n`.
pub open spec fn spares<T>(op: EnvOp<T>, n: Seq<char>, depth: nat, chain: Seq<Map<Seq<char>, Binding<T>>>) -> bool {
    match op {
        EnvOp::Push => true,
        EnvOp::Pop => chain.len() > depth,
        EnvOp::Define(k, _) => k != n,
        EnvOp::Assign(k, _) => k != n,
    }
}

/// Every operation of the run spares `n` and depth `d`, in the chain it
/// applies to.
pub open spec fn run_spares<T>(chain: Seq<Map<Seq<char>, Binding<T>>>, ops: Seq<EnvOp<T>>, n: Seq<char>, depth: nat) -> bool
    decreases ops.len(),
{
    if ops.len() == 0 {
        true
    } else {
        run_spares(chain, ops.drop_last(), n, depth) && spares(ops.last(), n, depth, env_run(chain, ops.drop_last()))
    }
}

proof fn lemma_binding_persists<T>(
    chain: Seq<Map<Seq<char>, Binding<T>>>,
    ops: Seq<EnvOp<T>>,
    n: Seq<char>,
    b: Binding<T>,
)
    requires
        chain.len() >= 1,
        chain.last().contains_key(n),
        chain.last()[n] == b,
        run_spares(chain, ops, n, chain.len()),
    ensures
        ({
            let r = env_run(chain, ops);
            &&& r.len() >= chain.len()
            &&& r[chain.len() - 1].contains_key(n) && r[chain.len() - 1][n] == b
            &&& forall|j: int| chain.len() <= j < r.len() ==> !(#[trigger] r[j]).contains_key(n)
        }),
    decreases ops.len(),
{
    if ops.len() > 0 {
        lemma_binding_persists(chain, ops.drop_last(), n, b);
        let c = env_run(chain, ops.drop_last());
        let d = chain.len() as int;
        let r = env_step(c, ops.last());
        match ops.last() {
            EnvOp::Push => {
                assert forall|j: int| d <= j < r.len() implies !(#[trigger] r[j]).contains_key(n) by {
                    if j < c.len() {
                        assert(r[j] == c[j]);
                    }
                }
            },
            EnvOp::Pop => {
                assert forall|j: int| d <= j < r.len() implies !(#[trigger] r[j]).contains_key(n) by {
                    assert(r[j] == c[j]);
                }
            },
            EnvOp::Define(k, bb) => {
                assert forall|j: int| d <= j < r.len() implies !(#[trigger] r[j]).contains_key(n) by {
                    if j < c.len() - 1 {
                        assert(r[j] == c[j]);
                    }
                }
                if d - 1 < c.len() - 1 {
                    assert(r[d - 1] == c[d - 1]);
                }
            },
            EnvOp::Assign(k, v) => {
                match chain_nearest(c, k) {
                    Some(i) => {
                        lemma_nearest_in_range(c, k);
                        assert forall|j: int| d <= j < r.len() implies !(#[trigger] r[j]).contains_key(n) by {
                            if j != i {
                                assert(r[j] == c[j]);
                            }
                        }
                        if i != d - 1 {
                            assert(r[d - 1] == c[d - 1]);
                        }
                    },
                    None => {},
                }
            },
        }
    }
}

/// A definition persists: after `define(n, v)` in the innermost scope, any
/// run of pushes, pops that never remove that scope, and defines and
/// assignments of other names leaves `n` looking up to `v`, because no
/// inner scope can have bound `n` since.
pub proof fn law_definition_persists<T>(
    chain: Seq<Map<Seq<char>, Binding<T>>>,
    n: Seq<char>,
    b: Binding<T>,
    ops: Seq<EnvOp<T>>,
)
    requires
        chain.len() >= 1,
        run_spares(chain_define(chain, n, b), ops, n, chain.len()),
    ensures
        chain_lookup(env_run(chain_define(chain, n, b), ops), n) == Some(b),
{
    let c = chain_define(chain, n, b);
    lemma_binding_persists(c, ops, n, b);
    let r = env_run(c, ops);
    lemma_lookup_skips_top(r, n, chain.len() as int);
    assert(r.take(chain.len() as int).last() == r[chain.len() - 1]);
}

/// The diagnostic for an assignment that failed.
pub open spec fn assign_error_text(name: Seq<char>, e: AssignError) -> Seq<char> {
    match e {
        AssignError::NotFound => "cannot assign to unbound name `"@ + name + "`"@,
        AssignError::Immutable => "cannot assign to immutable binding `"@ + name + "` (declared with `let`)"@,
    }
}

/// The diagnostic for an assignment to `name` that failed with `e`.
pub fn assign_error_message(name: &str, e: AssignError) -> (m: String)
    ensures
        m@ == assign_error_text(name@, e),
{
    match e {
        AssignError::NotFound => {
            let mut m = String::from_str("cannot assign to unbound name `");
            m.append(name);
            m.append("`");
            m
        },
        AssignError::Immutable => {
            let mut m = String::from_str("cannot assign to immutable binding `");
            m.append(name);
            m.append("` (declared with `let`)");
            m
        },
    }
}

} // verus!
