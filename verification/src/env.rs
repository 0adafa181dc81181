//! The environment chain: scopes that map names to values, each linked to
//! the scope it was opened in, held together in the runtime's arena.

use crate::types::{lemma_closed_grows, names, Env, MalValue, Value};
use vstd::prelude::*;

verus! {

/// The mathematical model of one scope: what it binds, and the scope it was
/// opened in.
pub ghost struct Scope {
    pub vars: Map<Seq<char>, Value>,
    pub parent: Option<nat>,
}

/// The mathematical model of the runtime: the scopes in the order in which
/// they were opened, and the lines written so far.
pub ghost struct World {
    pub scopes: Seq<Scope>,
    pub output: Seq<Seq<char>>,
}

impl Scope {
    /// What `key` means in this scope when its parent is a scope of `w`: the
    /// binding of this scope, or else what the chain of the parent says.
    pub open spec fn lookup(self, w: World, key: Seq<char>) -> Option<Value> {
        if self.vars.contains_key(key) {
            Some(self.vars[key])
        } else {
            match self.parent {
                Some(p) => w.lookup(p, key),
                None => None,
            }
        }
    }
}

impl World {
    /// Whether every scope was opened in an earlier scope and binds only
    /// values whose closures capture scopes of this world.
    pub open spec fn wf(self) -> bool {
        forall|i: int|
            0 <= i < self.scopes.len() ==> {
                &&& (#[trigger] self.scopes[i]).parent is Some ==> self.scopes[i].parent->0 < i
                &&& forall|k: Seq<char>|
                    self.scopes[i].vars.contains_key(k) ==> (#[trigger] self.scopes[i].vars[k]).closed(
                        self.scopes.len(),
                    )
            }
    }

    /// What `key` means in scope `at`: the binding of the innermost scope of
    /// the chain that has one.
    pub open spec fn lookup(self, at: nat, key: Seq<char>) -> Option<Value>
        decreases at,
    {
        if at >= self.scopes.len() {
            None
        } else if self.scopes[at as int].vars.contains_key(key) {
            Some(self.scopes[at as int].vars[key])
        } else {
            match self.scopes[at as int].parent {
                Some(p) => if p < at {
                    self.lookup(p, key)
                } else {
                    None
                },
                None => None,
            }
        }
    }

    /// The world after `key` is bound to `value` in scope `at`, and in no
    /// other scope.
    pub open spec fn bind(self, at: nat, key: Seq<char>, value: Value) -> World {
        if at < self.scopes.len() {
            World {
                scopes: self.scopes.update(
                    at as int,
                    Scope {
                        vars: self.scopes[at as int].vars.insert(key, value),
                        parent: self.scopes[at as int].parent,
                    },
                ),
                output: self.output,
            }
        } else {
            self
        }
    }

    /// The world after an empty scope is opened in `parent`.
    pub open spec fn open_scope(self, parent: Option<nat>) -> World {
        World { scopes: self.scopes.push(Scope { vars: Map::empty(), parent }), output: self.output }
    }

    /// The world after `line` is written.
    pub open spec fn write(self, line: Seq<char>) -> World {
        World { scopes: self.scopes, output: self.output.push(line) }
    }

    /// Whether `later` can come after `self` when only scope `at` was worked
    /// in: no scope is dropped or moved under another parent, no scope that
    /// was there but `at` has changed, and nothing written is taken back.
    /// With `at` beyond the scopes of `self`, none of them has changed.
    pub open spec fn steps_to(self, later: World, at: nat) -> bool {
        &&& self.scopes.len() <= later.scopes.len()
        &&& forall|i: int|
            #![trigger self.scopes[i]]
            #![trigger later.scopes[i]]
            0 <= i < self.scopes.len() ==> later.scopes[i].parent == self.scopes[i].parent && (i
                != at ==> later.scopes[i] == self.scopes[i])
        &&& self.output.len() <= later.output.len()
        &&& forall|j: int|
            #![trigger self.output[j]]
            #![trigger later.output[j]]
            0 <= j < self.output.len() ==> later.output[j] == self.output[j]
    }
}

/// The model of an optional value.
pub open spec fn value_opt(v: Option<MalValue>) -> Option<Value> {
    match v {
        Some(x) => Some(x@),
        None => None,
    }
}

/// The model of an optional scope handle.
pub open spec fn handle_opt(p: Option<usize>) -> Option<nat> {
    match p {
        Some(x) => Some(x as nat),
        None => None,
    }
}

/// One scope: the names bound at this level, each once, and the scope it was
/// opened in.
pub struct Bindings {
    current_level: Vec<(String, MalValue)>,
    parent: Option<usize>,
}

/// Whether `key` is the name of one of the pairs.
pub open spec fn has_key(pairs: Seq<(String, MalValue)>, key: Seq<char>) -> bool {
    exists|i: int| 0 <= i < pairs.len() && (#[trigger] pairs[i]).0@ == key
}

/// The place of a pair whose name is `key`.
pub open spec fn key_index(pairs: Seq<(String, MalValue)>, key: Seq<char>) -> int {
    choose|i: int| 0 <= i < pairs.len() && (#[trigger] pairs[i]).0@ == key
}

/// Whether no two pairs have the same name.
pub open spec fn distinct_keys(pairs: Seq<(String, MalValue)>) -> bool {
    forall|i: int, j: int|
        0 <= i < j < pairs.len() ==> (#[trigger] pairs[i]).0@ != (#[trigger] pairs[j]).0@
}

/// The mapping that a list of pairs with distinct names stands for.
pub open spec fn pairs_map(pairs: Seq<(String, MalValue)>) -> Map<Seq<char>, Value> {
    Map::new(|k: Seq<char>| has_key(pairs, k), |k: Seq<char>| pairs[key_index(pairs, k)].1@)
}

/// With distinct names, the pair at place `i` is the one its name finds.
proof fn lemma_key_found(pairs: Seq<(String, MalValue)>, i: int)
    requires
        distinct_keys(pairs),
        0 <= i < pairs.len(),
    ensures
        has_key(pairs, pairs[i].0@),
        key_index(pairs, pairs[i].0@) == i,
        pairs_map(pairs).contains_key(pairs[i].0@),
        pairs_map(pairs)[pairs[i].0@] == pairs[i].1@,
{
}

impl View for Bindings {
    type V = Scope;

    closed spec fn view(&self) -> Scope {
        Scope { vars: pairs_map(self.current_level@), parent: handle_opt(self.parent) }
    }
}

impl Bindings {
    /// Whether each name is bound once at this level.
    pub closed spec fn wf(&self) -> bool {
        distinct_keys(self.current_level@)
    }

    /// An empty scope opened in `parent`; a scope without a parent is a root.
    pub fn new(parent: Option<usize>) -> (scope: Bindings)
        ensures
            scope.wf(),
            scope@ == (Scope { vars: Map::empty(), parent: handle_opt(parent) }),
    {
        let scope = Bindings { current_level: Vec::new(), parent };
        assert(scope@.vars =~= Map::empty());
        scope
    }

    /// Binds `key` to `value` at this level, in place of what it was bound
    /// to before, if anything.
    pub fn set(&mut self, key: String, value: MalValue)
        requires
            old(self).wf(),
        ensures
            final(self).wf(),
            final(self)@ == (Scope {
                vars: old(self)@.vars.insert(key@, value@),
                parent: old(self)@.parent,
            }),
    {
        let ghost before = self.current_level@;
        let ghost k = key@;
        let ghost v = value@;
        let mut i: usize = 0;
        while i < self.current_level.len()
            invariant
                i <= self.current_level.len(),
                self.current_level@ == before,
                old(self).current_level@ == before,
                distinct_keys(before),
                self.parent == old(self).parent,
                key@ == k,
                value@ == v,
                forall|j: int| 0 <= j < i ==> (#[trigger] before[j]).0@ != k,
            decreases self.current_level.len() - i,
        {
            if self.current_level[i].0 == key {
                self.current_level.set(i, (key, value));
                proof {
                    let after = self.current_level@;
                    assert(distinct_keys(after)) by {
                        assert forall|a: int, b: int| 0 <= a < b < after.len() implies (
                        #[trigger] after[a]).0@ != (#[trigger] after[b]).0@ by {}
                    }
                    assert forall|q: Seq<char>| has_key(after, q) == has_key(before, q) by {
                        if has_key(before, q) {
                            let j = key_index(before, q);
                            assert(after[j].0@ == q);
                        }
                    }
                    lemma_key_found(before, i as int);
                    assert forall|q: Seq<char>| has_key(after, q) implies pairs_map(after)[q]
                        == pairs_map(before).insert(k, v)[q] by {
                        let j = key_index(after, q);
                        lemma_key_found(after, j);
                        lemma_key_found(before, j);
                    }
                    assert(pairs_map(after) =~= pairs_map(before).insert(k, v));
                }
                return ;
            }
            i += 1;
        }
        self.current_level.push((key, value));
        proof {
            let after = self.current_level@;
            let n = before.len() as int;
            assert(after[n].0@ == k);
            assert forall|q: Seq<char>| has_key(after, q) == (has_key(before, q) || q == k) by {
                if has_key(before, q) {
                    let j = key_index(before, q);
                    assert(after[j].0@ == q);
                }
            }
            assert forall|q: Seq<char>| has_key(after, q) implies pairs_map(after)[q]
                == pairs_map(before).insert(k, v)[q] by {
                let j = key_index(after, q);
                lemma_key_found(after, j);
                if j < n {
                    lemma_key_found(before, j);
                }
            }
            assert(pairs_map(after) =~= pairs_map(before).insert(k, v));
        }
    }

    /// What `key` is bound to at this level; the scopes above are not asked.
    pub fn find(&self, key: &String) -> (found: Option<MalValue>)
        requires
            self.wf(),
        ensures
            found is Some == self@.vars.contains_key(key@),
            found is Some ==> found->0@ == self@.vars[key@],
    {
        let mut i: usize = 0;
        while i < self.current_level.len()
            invariant
                i <= self.current_level.len(),
                self.wf(),
                forall|j: int| 0 <= j < i ==> (#[trigger] self.current_level@[j]).0@ != key@,
            decreases self.current_level.len() - i,
        {
            if self.current_level[i].0 == *key {
                proof {
                    lemma_key_found(self.current_level@, i as int);
                }
                return Some(self.current_level[i].1.clone());
            }
            i += 1;
        }
        None
    }

    /// What `key` means in this scope, whose parent is a scope of `rt`: the
    /// binding at this level, or else that of the innermost scope above it
    /// that has one, or nothing if none has.
    pub fn get(&self, key: &String, rt: &Runtime) -> (found: Option<MalValue>)
        requires
            self.wf(),
            rt.wf(),
            self@.parent matches Some(p) ==> p < rt@.scopes.len(),
        ensures
            value_opt(found) == self@.lookup(rt@, key@),
            found is Some && !self@.vars.contains_key(key@) ==> found->0@.closed(
                rt@.scopes.len(),
            ),
    {
        let here = self.find(key);
        if here.is_some() {
            return here;
        }
        let mut next = self.parent;
        loop
            invariant
                rt.wf(),
                next matches Some(p) ==> p < rt@.scopes.len(),
                self@.lookup(rt@, key@) == (match next {
                    Some(p) => rt@.lookup(p as nat, key@),
                    None => None,
                }),
            decreases
                    (match next {
                        Some(p) => p + 1,
                        None => 0,
                    }),
        {
            match next {
                Some(p) => {
                    let found = rt.scopes[p].find(key);
                    if found.is_some() {
                        return found;
                    }
                    next = rt.scopes[p].parent;
                },
                None => {
                    return None;
                },
            }
        }
    }

    /// The scope this one was opened in.
    pub fn parent(&self) -> (p: Option<usize>)
        ensures
            handle_opt(p) == self@.parent,
    {
        self.parent
    }
}

/// What an evaluation works on besides the expression: the arena of scopes,
/// the lines written by the printing primitives and not yet collected, and
/// the depth to which evaluation may still nest, counted in lists with
/// elements that are evaluated inside one another.
pub struct Runtime {
    scopes: Vec<Bindings>,
    output: Vec<String>,
    depth: usize,
}

impl View for Runtime {
    type V = World;

    closed spec fn view(&self) -> World {
        World {
            scopes: Seq::new(self.scopes@.len(), |i: int| self.scopes@[i]@),
            output: names(self.output@),
        }
    }
}

impl Runtime {
    /// Whether each scope of the arena binds each name once.
    pub closed spec fn inv(&self) -> bool {
        forall|i: int| 0 <= i < self.scopes@.len() ==> (#[trigger] self.scopes@[i]).wf()
    }

    /// Whether the runtime is in a state that evaluation can start from.
    pub open spec fn wf(&self) -> bool {
        self.inv() && self@.wf()
    }

    /// The depth to which calls may still nest.
    pub closed spec fn depth(&self) -> nat {
        self.depth as nat
    }

    /// A runtime with no scope and nothing written, in which calls may nest
    /// to `depth`.
    pub fn new(depth: usize) -> (rt: Runtime)
        ensures
            rt.wf(),
            rt@ == (World { scopes: Seq::empty(), output: Seq::empty() }),
            rt.depth() == depth,
    {
        let rt = Runtime { scopes: Vec::new(), output: Vec::new(), depth };
        assert(rt@.scopes =~= Seq::empty());
        assert(rt@.output =~= Seq::empty());
        rt
    }

    /// The number of scopes opened so far.
    pub fn scope_count(&self) -> (n: usize)
        ensures
            n == self@.scopes.len(),
    {
        self.scopes.len()
    }

    /// The depth to which calls may still nest.
    pub fn depth_left(&self) -> (d: usize)
        ensures
            d == self.depth(),
    {
        self.depth
    }

    /// Sets the depth to which calls may nest.
    pub fn set_depth(&mut self, depth: usize)
        ensures
            final(self)@ == old(self)@,
            final(self).inv() == old(self).inv(),
            final(self).depth() == depth,
    {
        self.depth = depth;
    }

    /// Appends a line to what was written.
    pub fn write_line(&mut self, line: String)
        ensures
            final(self)@ == old(self)@.write(line@),
            final(self).inv() == old(self).inv(),
            final(self).depth() == old(self).depth(),
    {
        self.output.push(line);
        assert(names(self.output@) =~= names(old(self).output@).push(line@));
    }

    /// Hands out the lines written since the last call, oldest first, and
    /// forgets them.
    pub fn take_output(&mut self) -> (lines: Vec<String>)
        ensures
            names(lines@) == old(self)@.output,
            final(self)@ == (World { scopes: old(self)@.scopes, output: Seq::empty() }),
            final(self).inv() == old(self).inv(),
            final(self).depth() == old(self).depth(),
    {
        let mut lines: Vec<String> = Vec::new();
        std::mem::swap(&mut lines, &mut self.output);
        assert(names(self.output@) =~= Seq::empty());
        lines
    }
}

impl Env {
    /// Whether the scope is one of `w`.
    pub open spec fn valid(self, w: World) -> bool {
        self.bindings < w.scopes.len()
    }

    /// Opens an empty scope in `parent` and returns it; without a parent the
    /// new scope is a root.
    pub fn new(parent: Option<usize>, rt: &mut Runtime) -> (env: Env)
        requires
            old(rt).wf(),
            parent is Some ==> parent->0 < old(rt)@.scopes.len(),
        ensures
            final(rt).wf(),
            final(rt)@ == old(rt)@.open_scope(handle_opt(parent)),
            final(rt).depth() == old(rt).depth(),
            env.bindings == old(rt)@.scopes.len(),
    {
        let at = rt.scopes.len();
        rt.scopes.push(Bindings::new(parent));
        proof {
            let before = old(rt)@;
            let after = rt@;
            assert(after.scopes =~= before.open_scope(handle_opt(parent)).scopes);
            assert forall|i: int| 0 <= i < after.scopes.len() implies {
                &&& (#[trigger] after.scopes[i]).parent is Some ==> after.scopes[i].parent->0 < i
                &&& forall|k: Seq<char>|
                    after.scopes[i].vars.contains_key(k) ==> (#[trigger] after.scopes[i].vars[k]).closed(
                        after.scopes.len(),
                    )
            } by {
                if i < before.scopes.len() {
                    assert forall|k: Seq<char>| after.scopes[i].vars.contains_key(k) implies (
                    #[trigger] after.scopes[i].vars[k]).closed(after.scopes.len()) by {
                        lemma_closed_grows(
                            before.scopes[i].vars[k],
                            before.scopes.len(),
                            after.scopes.len(),
                        );
                    }
                }
            }
        }
        Env { bindings: at }
    }

    /// Binds `key` to `value` in this scope, and in no other.
    pub fn set(&self, key: String, value: MalValue, rt: &mut Runtime)
        requires
            old(rt).wf(),
            self.valid(old(rt)@),
            value@.closed(old(rt)@.scopes.len()),
        ensures
            final(rt).wf(),
            final(rt)@ == old(rt)@.bind(self.bindings as nat, key@, value@),
            final(rt).depth() == old(rt).depth(),
    {
        let ghost k = key@;
        let ghost v = value@;
        rt.scopes[self.bindings].set(key, value);
        proof {
            let before = old(rt)@;
            let after = rt@;
            assert(after.scopes =~= before.bind(self.bindings as nat, k, v).scopes);
            assert forall|i: int| 0 <= i < after.scopes.len() implies {
                &&& (#[trigger] after.scopes[i]).parent is Some ==> after.scopes[i].parent->0 < i
                &&& forall|q: Seq<char>|
                    after.scopes[i].vars.contains_key(q) ==> (#[trigger] after.scopes[i].vars[q]).closed(
                        after.scopes.len(),
                    )
            } by {
                assert forall|q: Seq<char>| after.scopes[i].vars.contains_key(q) implies (
                #[trigger] after.scopes[i].vars[q]).closed(after.scopes.len()) by {}
            }
        }
    }

    /// What `key` means in this scope: the binding of the innermost scope of
    /// the chain that has one, or nothing if no scope of the chain binds it.
    pub fn get(&self, key: &String, rt: &Runtime) -> (found: Option<MalValue>)
        requires
            rt.wf(),
            self.valid(rt@),
        ensures
            value_opt(found) == rt@.lookup(self.bindings as nat, key@),
            found is Some ==> found->0@.closed(rt@.scopes.len()),
    {
        rt.scopes[self.bindings].get(key, rt)
    }

    /// The handle of the scope, by which a new scope is opened in it.
    pub fn get_bindings(&self) -> (handle: usize)
        ensures
            handle == self.bindings,
    {
        self.bindings
    }
}

} // verus!
