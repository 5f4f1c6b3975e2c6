//! The chained scopes that hold the variables of a running program.

use vstd::prelude::*;
use vstd::hash_map::StringHashMap;
use vstd::string::StringExecFns;
use crate::error::{LoxError, LoxErrorView};
use crate::grammar::Token;
use crate::value::Value;

verus! {

/// One scope: its own variables, and the scope that encloses it.
pub struct Scope {
    values: StringHashMap<Value>,
    parent: Option<usize>,
}

/// The mathematical content of a [`Scope`].
pub struct ScopeView {
    pub values: Map<Seq<char>, Value>,
    pub parent: Option<usize>,
}

impl View for Scope {
    type V = ScopeView;

    closed spec fn view(&self) -> ScopeView {
        ScopeView { values: self.values@, parent: self.parent }
    }
}

/// Every scope is enclosed by one that was made before it, so that no chain
/// of scopes comes back to itself.
pub open spec fn chains_acyclic(scopes: Seq<ScopeView>) -> bool {
    forall|i: int|
        0 <= i < scopes.len() ==> match (#[trigger] scopes[i]).parent {
            Some(p) => p < i,
            None => true,
        }
}

/// The scope `distance` links outward from `scope`, if the chain is that long.
pub open spec fn ancestor_of(scopes: Seq<ScopeView>, scope: int, distance: nat) -> Option<int>
    decreases distance,
{
    if !(0 <= scope < scopes.len()) {
        None
    } else if distance == 0 {
        Some(scope)
    } else {
        match scopes[scope].parent {
            Some(p) => ancestor_of(scopes, p as int, (distance - 1) as nat),
            None => None,
        }
    }
}

/// The innermost scope on the chain from `scope` outward that holds `name`.
pub open spec fn holder_of(scopes: Seq<ScopeView>, scope: int, name: Seq<char>) -> Option<int>
    decreases scope,
{
    if !(0 <= scope < scopes.len()) {
        None
    } else if scopes[scope].values.contains_key(name) {
        Some(scope)
    } else {
        match scopes[scope].parent {
            Some(p) => if p < scope {
                holder_of(scopes, p as int, name)
            } else {
                None
            },
            None => None,
        }
    }
}

/// The value that `name` has when looked up from `scope` outward.
pub open spec fn lookup(scopes: Seq<ScopeView>, scope: int, name: Seq<char>) -> Option<Value> {
    match holder_of(scopes, scope, name) {
        Some(holder) => Some(scopes[holder].values[name]),
        None => None,
    }
}

/// The scopes after `name` is set to `value` in the scope `scope` itself.
pub open spec fn with_binding(
    scopes: Seq<ScopeView>,
    scope: int,
    name: Seq<char>,
    value: Value,
) -> Seq<ScopeView> {
    scopes.update(
        scope,
        ScopeView { values: scopes[scope].values.insert(name, value), parent: scopes[scope].parent },
    )
}

/// The value that `name` has in the scope `scope` itself: `nil` when the
/// scope does not hold it.
pub open spec fn local_value(scopes: Seq<ScopeView>, scope: int, name: Seq<char>) -> Value {
    if scopes[scope].values.contains_key(name) {
        scopes[scope].values[name]
    } else {
        Value::Nil
    }
}

/// The error for a variable that no scope on the chain holds.
pub open spec fn undefined_variable(token: Token) -> LoxErrorView {
    LoxErrorView::UndefinedVariable { name: token.lexeme@, line: token.line }
}

/// All the scopes of a running program. A scope is named by its handle, the
/// order in which it was made; the first scope holds the globals.
pub struct Environment {
    scopes: Vec<Scope>,
}

impl View for Environment {
    type V = Seq<ScopeView>;

    closed spec fn view(&self) -> Seq<ScopeView> {
        Seq::new(self.scopes@.len(), |i: int| self.scopes@[i]@)
    }
}

impl Environment {
    /// The chains of scopes are acyclic, and the global scope exists.
    pub open spec fn wf(&self) -> bool {
        chains_acyclic(self@) && self@.len() > 0
    }

    /// The global scope alone, holding nothing.
    pub fn new() -> (environment: Self)
        ensures
            environment.wf(),
            environment@ == seq![ScopeView { values: Map::<Seq<char>, Value>::empty(), parent: None }],
    {
        let mut scopes: Vec<Scope> = Vec::new();
        scopes.push(Scope { values: StringHashMap::new(), parent: None });
        let environment = Environment { scopes };
        assert(environment@ =~= seq![
            ScopeView { values: Map::<Seq<char>, Value>::empty(), parent: None },
        ]);
        environment
    }

    /// The number of scopes made so far.
    pub fn len(&self) -> (count: usize)
        ensures
            count == self@.len(),
    {
        self.scopes.len()
    }

    /// Makes an empty scope enclosed by `enclosing`, and returns its handle.
    pub fn new_enclosed(&mut self, enclosing: usize) -> (scope: usize)
        requires
            old(self).wf(),
            enclosing < old(self)@.len(),
        ensures
            final(self).wf(),
            scope == old(self)@.len(),
            final(self)@ == old(self)@.push(
                ScopeView { values: Map::<Seq<char>, Value>::empty(), parent: Some(enclosing) },
            ),
    {
        let scope = self.scopes.len();
        self.scopes.push(Scope { values: StringHashMap::new(), parent: Some(enclosing) });
        assert(self@ =~= old(self)@.push(
            ScopeView { values: Map::<Seq<char>, Value>::empty(), parent: Some(enclosing) },
        ));
        scope
    }

    /// Sets `name` in the scope `scope` itself, whether or not it was set before.
    pub fn define(&mut self, scope: usize, name: &str, value: Value)
        requires
            scope < old(self)@.len(),
        ensures
            final(self)@ == with_binding(old(self)@, scope as int, name@, value),
            old(self).wf() ==> final(self).wf(),
    {
        self.scopes[scope].values.insert(String::from_str(name), value);
        assert(self@ =~= with_binding(old(self)@, scope as int, name@, value));
    }

    /// The handle of the innermost scope from `scope` outward that holds `name`.
    pub fn holder(&self, scope: usize, name: &str) -> (holder: Option<usize>)
        requires
            self.wf(),
            scope < self@.len(),
        ensures
            match holder {
                Some(h) => holder_of(self@, scope as int, name@) == Some(h as int) && h
                    < self@.len() && self@[h as int].values.contains_key(name@),
                None => holder_of(self@, scope as int, name@) is None,
            },
    {
        let mut at: usize = scope;
        loop
            invariant
                self.wf(),
                at < self@.len(),
                holder_of(self@, at as int, name@) == holder_of(self@, scope as int, name@),
            decreases at,
        {
            if self.scopes[at].values.contains_key(name) {
                return Some(at);
            }
            match self.scopes[at].parent {
                Some(p) => {
                    assert(self@[at as int].parent == Some(p));
                    at = p;
                },
                None => {
                    return None;
                },
            }
        }
    }

    /// The value of the variable that `token` names, looked up from `scope`
    /// outward; an error when no scope on the chain holds it.
    pub fn get(&self, scope: usize, token: &Token) -> (result: Result<Value, LoxError>)
        requires
            self.wf(),
            scope < self@.len(),
        ensures
            match lookup(self@, scope as int, token.lexeme@) {
                Some(value) => result == Ok::<Value, LoxError>(value),
                None => result is Err && result->Err_0@ == undefined_variable(*token),
            },
    {
        match self.holder(scope, token.lexeme.as_str()) {
            Some(holder) => {
                let value = self.scopes[holder].values.get(token.lexeme.as_str());
                match value {
                    Some(v) => Ok(*v),
                    None => Ok(Value::Nil),
                }
            },
            None => Err(
                LoxError::UndefinedVariable { name: token.lexeme.clone(), line: token.line },
            ),
        }
    }

    /// Sets the variable that `token` names in the innermost scope from
    /// `scope` outward that already holds it; an error, and no change, when
    /// none does.
    pub fn assign(&mut self, scope: usize, token: &Token, value: Value) -> (result: Result<
        (),
        LoxError,
    >)
        requires
            old(self).wf(),
            scope < old(self)@.len(),
        ensures
            final(self).wf(),
            match holder_of(old(self)@, scope as int, token.lexeme@) {
                Some(holder) => result is Ok && final(self)@ == with_binding(
                    old(self)@,
                    holder,
                    token.lexeme@,
                    value,
                ),
                None => result is Err && result->Err_0@ == undefined_variable(*token)
                    && final(self)@ == old(self)@,
            },
    {
        match self.holder(scope, token.lexeme.as_str()) {
            Some(holder) => {
                self.define(holder, token.lexeme.as_str(), value);
                Ok(())
            },
            None => Err(
                LoxError::UndefinedVariable { name: token.lexeme.clone(), line: token.line },
            ),
        }
    }

    /// The handle of the scope `distance` links outward from `scope`, if the
    /// chain is that long.
    pub fn try_ancestor(&self, scope: usize, distance: usize) -> (ancestor: Option<usize>)
        requires
            self.wf(),
            scope < self@.len(),
        ensures
            match ancestor {
                Some(a) => ancestor_of(self@, scope as int, distance as nat) == Some(a as int) && a
                    < self@.len(),
                None => ancestor_of(self@, scope as int, distance as nat) is None,
            },
    {
        let mut at: usize = scope;
        let mut left: usize = distance;
        while left > 0
            invariant
                self.wf(),
                at < self@.len(),
                ancestor_of(self@, at as int, left as nat) == ancestor_of(
                    self@,
                    scope as int,
                    distance as nat,
                ),
            decreases left,
        {
            match self.scopes[at].parent {
                Some(p) => {
                    assert(self@[at as int].parent == Some(p));
                    at = p;
                    left = left - 1;
                },
                None => {
                    assert(self@[at as int].parent is None);
                    return None;
                },
            }
        }
        Some(at)
    }

    /// The handle of the scope `distance` links outward from `scope`.
    pub fn ancestor(&self, scope: usize, distance: usize) -> (ancestor: usize)
        requires
            self.wf(),
            scope < self@.len(),
            ancestor_of(self@, scope as int, distance as nat) is Some,
        ensures
            ancestor_of(self@, scope as int, distance as nat) == Some(ancestor as int),
            ancestor < self@.len(),
    {
        match self.try_ancestor(scope, distance) {
            Some(a) => a,
            None => scope,
        }
    }

    /// The value of `name` in the scope `distance` links outward from
    /// `scope`: `nil` when that scope does not hold it.
    pub fn get_at(&self, scope: usize, distance: usize, name: &str) -> (value: Value)
        requires
            self.wf(),
            scope < self@.len(),
            ancestor_of(self@, scope as int, distance as nat) is Some,
        ensures
            value == local_value(
                self@,
                ancestor_of(self@, scope as int, distance as nat)->Some_0,
                name@,
            ),
    {
        let ancestor = self.ancestor(scope, distance);
        match self.scopes[ancestor].values.get(name) {
            Some(v) => *v,
            None => Value::Nil,
        }
    }

    /// Sets `name` in the scope `distance` links outward from `scope`.
    pub fn assign_at(&mut self, scope: usize, distance: usize, name: &str, value: Value)
        requires
            old(self).wf(),
            scope < old(self)@.len(),
            ancestor_of(old(self)@, scope as int, distance as nat) is Some,
        ensures
            final(self).wf(),
            final(self)@ == with_binding(
                old(self)@,
                ancestor_of(old(self)@, scope as int, distance as nat)->Some_0,
                name@,
                value,
            ),
    {
        let ancestor = self.ancestor(scope, distance);
        self.define(ancestor, name, value);
    }
}

/// A variable that is set in a scope is what a lookup from that scope finds.
pub proof fn lemma_lookup_finds_what_was_set(
    scopes: Seq<ScopeView>,
    scope: int,
    name: Seq<char>,
    value: Value,
)
    requires
        0 <= scope < scopes.len(),
    ensures
        lookup(with_binding(scopes, scope, name, value), scope, name) == Some(value),
        local_value(with_binding(scopes, scope, name, value), scope, name) == value,
{
}

/// Lookup depends on the scopes and the name alone, and a write to another
/// name does not change it: between two lookups of a name, only a write to
/// that name can change the value found.
pub proof fn lemma_lookup_ignores_other_names(
    scopes: Seq<ScopeView>,
    written: int,
    other: Seq<char>,
    value: Value,
    scope: int,
    name: Seq<char>,
)
    requires
        0 <= written < scopes.len(),
        other != name,
    ensures
        lookup(with_binding(scopes, written, other, value), scope, name) == lookup(
            scopes,
            scope,
            name,
        ),
    decreases scope,
{
    let after = with_binding(scopes, written, other, value);
    if 0 <= scope < scopes.len() {
        assert(after[scope].values.contains_key(name) == scopes[scope].values.contains_key(name));
        assert(after[scope].parent == scopes[scope].parent);
        if !scopes[scope].values.contains_key(name) {
            match scopes[scope].parent {
                Some(p) => {
                    if p < scope {
                        lemma_lookup_ignores_other_names(scopes, written, other, value, p as int, name);
                    }
                },
                None => {},
            }
        }
    }
}

/// A new scope changes no lookup from a scope that was there before.
pub proof fn lemma_lookup_ignores_new_scopes(
    scopes: Seq<ScopeView>,
    added: ScopeView,
    scope: int,
    name: Seq<char>,
)
    requires
        chains_acyclic(scopes),
        0 <= scope < scopes.len(),
    ensures
        lookup(scopes.push(added), scope, name) == lookup(scopes, scope, name),
    decreases scope,
{
    let after = scopes.push(added);
    assert(after[scope] == scopes[scope]);
    if !scopes[scope].values.contains_key(name) {
        match scopes[scope].parent {
            Some(p) => {
                lemma_lookup_ignores_new_scopes(scopes, added, p as int, name);
            },
            None => {},
        }
    }
}

/// Shadowing: a variable declared in a block hides the variable of the same
/// name outside for as long as the block lasts, and leaves it as it was.
///
/// With `name` set to `outer` in the scope `scope` and to `inner` in a new
/// scope enclosed by it, the new scope finds `inner`, and the enclosing
/// scope, one link out, still finds `outer`.
pub proof fn lemma_shadowing(
    scopes: Seq<ScopeView>,
    scope: usize,
    name: Seq<char>,
    outer: Value,
    inner: Value,
)
    requires
        chains_acyclic(scopes),
        scope < scopes.len(),
    ensures
        ({
            let declared = with_binding(scopes, scope as int, name, outer);
            let block = declared.len() as int;
            let entered = declared.push(
                ScopeView { values: Map::<Seq<char>, Value>::empty(), parent: Some(scope) },
            );
            let shadowed = with_binding(entered, block, name, inner);
            &&& lookup(shadowed, block, name) == Some(inner)
            &&& local_value(shadowed, block, name) == inner
            &&& ancestor_of(shadowed, block, 1) == Some(scope as int)
            &&& lookup(shadowed, scope as int, name) == Some(outer)
            &&& local_value(shadowed, scope as int, name) == outer
        }),
{
    let declared = with_binding(scopes, scope as int, name, outer);
    let block = declared.len() as int;
    let entered = declared.push(
        ScopeView { values: Map::<Seq<char>, Value>::empty(), parent: Some(scope) },
    );
    let shadowed = with_binding(entered, block, name, inner);
    assert(shadowed[scope as int] == declared[scope as int]);
    assert(shadowed[block].parent == Some(scope));
    assert(ancestor_of(shadowed, scope as int, 0) == Some(scope as int));
}

} // verus!
