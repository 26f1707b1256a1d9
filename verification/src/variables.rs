//! The variable environment: a chain of lexical scopes.
use crate::context::Identifier;
use std::collections::HashMap;
use vstd::prelude::*;

verus! {

broadcast use vstd::std_specs::hash::group_hash_axioms;

/// Why a declaration or an assignment was refused.
#[derive(Clone, Copy, Debug, PartialEq, Eq, Structural)]
pub enum VariableError {
    /// The name is already declared in the innermost scope.
    VariableAlreadyDefined,
    /// The name is bound, but its binding is immutable.
    CannotAssignImmutableVariable,
    /// No visible scope declares the name.
    UndefinedVariable,
}

/// What a scope records for a name.
pub struct Variable<V> {
    pub value: V,
    pub mutable: bool,
}

/// A chain of scopes as a sequence of maps from names to bindings: the root
/// scope first, the innermost scope last.
pub type Scopes<V> = Seq<Map<usize, Variable<V>>>;

/// The position in the chain of the innermost scope that declares `name`.
pub open spec fn innermost<V>(scopes: Scopes<V>, name: usize) -> Option<int>
    decreases scopes.len(),
{
    if scopes.len() == 0 {
        None
    } else if scopes.last().contains_key(name) {
        Some(scopes.len() - 1)
    } else {
        innermost(scopes.drop_last(), name)
    }
}

/// The value that a reference to `name` sees: that of the innermost scope
/// that declares it.
pub open spec fn lookup<V>(scopes: Scopes<V>, name: usize) -> Option<V> {
    match innermost(scopes, name) {
        Some(depth) => Some(scopes[depth][name].value),
        None => None,
    }
}

/// The chain after `name` was declared in the innermost scope. A name can be
/// declared once in a scope; a declaration in an outer scope does not count.
pub open spec fn declare<V>(scopes: Scopes<V>, name: usize, value: V, mutable: bool) -> Result<
    Scopes<V>,
    VariableError,
>
    recommends
        scopes.len() > 0,
{
    if scopes.last().contains_key(name) {
        Err(VariableError::VariableAlreadyDefined)
    } else {
        Ok(scopes.update(scopes.len() - 1, scopes.last().insert(name, Variable { value, mutable })))
    }
}

/// The chain after `value` was assigned to `name`. The binding that changes
/// is the one that a reference to `name` sees; it has to be mutable, and it
/// stays so.
pub open spec fn assign<V>(scopes: Scopes<V>, name: usize, value: V) -> Result<
    Scopes<V>,
    VariableError,
> {
    match innermost(scopes, name) {
        None => Err(VariableError::UndefinedVariable),
        Some(depth) => if scopes[depth][name].mutable {
            Ok(scopes.update(depth, scopes[depth].insert(name, Variable { value, mutable: true })))
        } else {
            Err(VariableError::CannotAssignImmutableVariable)
        },
    }
}

/// The chain with a new, empty innermost scope.
pub open spec fn enter<V>(scopes: Scopes<V>) -> Scopes<V> {
    scopes.push(Map::empty())
}

/// The chain without its innermost scope.
pub open spec fn leave<V>(scopes: Scopes<V>) -> Scopes<V>
    recommends
        scopes.len() > 0,
{
    scopes.drop_last()
}

/// Where the innermost declaration of a name lies.
pub proof fn lemma_innermost<V>(scopes: Scopes<V>, name: usize)
    ensures
        match innermost(scopes, name) {
            Some(depth) => {
                &&& 0 <= depth < scopes.len()
                &&& scopes[depth].contains_key(name)
                &&& forall|above: int| depth < above < scopes.len() ==> !scopes[above].contains_key(name)
            },
            None => forall|depth: int| 0 <= depth < scopes.len() ==> !scopes[depth].contains_key(name),
        },
    decreases scopes.len(),
{
    if scopes.len() > 0 && !scopes.last().contains_key(name) {
        let rest = scopes.drop_last();
        lemma_innermost(rest, name);
        assert forall|depth: int| 0 <= depth < rest.len() implies rest[depth] == scopes[depth] by {}
        match innermost(rest, name) {
            Some(found) => {
                assert forall|above: int| found < above < scopes.len() implies !scopes[above].contains_key(
                    name,
                ) by {
                    if above < rest.len() {
                        assert(!rest[above].contains_key(name));
                    }
                }
            },
            None => {
                assert forall|depth: int| 0 <= depth < scopes.len() implies !scopes[depth].contains_key(
                    name,
                ) by {
                    if depth < rest.len() {
                        assert(!rest[depth].contains_key(name));
                    }
                }
            },
        }
    }
}

/// The innermost declaration of a name is at `depth` when that scope declares
/// it and none above does.
pub proof fn lemma_innermost_is<V>(scopes: Scopes<V>, name: usize, depth: int)
    requires
        0 <= depth < scopes.len(),
        scopes[depth].contains_key(name),
        forall|above: int| depth < above < scopes.len() ==> !scopes[above].contains_key(name),
    ensures
        innermost(scopes, name) == Some(depth),
{
    lemma_innermost(scopes, name);
    match innermost(scopes, name) {
        Some(found) => {
            if found < depth {
                assert(!scopes[depth].contains_key(name));
            } else if depth < found {
                assert(!scopes[found].contains_key(name));
            }
        },
        None => {
            assert(!scopes[depth].contains_key(name));
        },
    }
}

/// A name can be declared once in a scope, whatever the mutability of the two
/// declarations.
pub proof fn lemma_declared_twice<V>(
    scopes: Scopes<V>,
    name: usize,
    first: V,
    first_mutable: bool,
    second: V,
    second_mutable: bool,
)
    requires
        scopes.len() > 0,
        declare(scopes, name, first, first_mutable) is Ok,
    ensures
        declare(declare(scopes, name, first, first_mutable)->Ok_0, name, second, second_mutable) == Err::<
            Scopes<V>,
            VariableError,
        >(VariableError::VariableAlreadyDefined),
{
}

/// A name can always be declared in a scope that was just entered, whether
/// or not a scope around it declares the name too. Inside, a reference sees
/// the new binding. Once the scope is left, the chain is what it was before
/// the scope was entered: the outer binding, if there is one, was not
/// touched.
pub proof fn lemma_declared_in_child<V>(scopes: Scopes<V>, name: usize, value: V, mutable: bool)
    ensures
        declare(enter(scopes), name, value, mutable) is Ok,
        lookup(declare(enter(scopes), name, value, mutable)->Ok_0, name) == Some(value),
        leave(declare(enter(scopes), name, value, mutable)->Ok_0) == scopes,
{
    let inner = declare(enter(scopes), name, value, mutable)->Ok_0;
    assert(inner.last().contains_key(name));
    assert(leave(inner) =~= scopes);
}

/// An assignment to a name whose visible binding is immutable is refused.
pub proof fn lemma_assigned_immutable<V>(scopes: Scopes<V>, name: usize, value: V)
    requires
        innermost(scopes, name) is Some,
        !scopes[innermost(scopes, name)->Some_0][name].mutable,
    ensures
        assign(scopes, name, value) == Err::<Scopes<V>, VariableError>(
            VariableError::CannotAssignImmutableVariable,
        ),
{
}

/// An assignment to a name whose visible binding is mutable is accepted.
/// Afterwards a reference to the name sees the assigned value, in the same
/// scope and in every chain of scopes entered below it that do not declare
/// the name themselves; and the binding is still mutable.
pub proof fn lemma_assigned_mutable<V>(scopes: Scopes<V>, name: usize, value: V, below: Scopes<V>)
    requires
        innermost(scopes, name) is Some,
        scopes[innermost(scopes, name)->Some_0][name].mutable,
        forall|depth: int| 0 <= depth < below.len() ==> !below[depth].contains_key(name),
    ensures
        assign(scopes, name, value) is Ok,
        lookup(assign(scopes, name, value)->Ok_0, name) == Some(value),
        lookup(assign(scopes, name, value)->Ok_0 + below, name) == Some(value),
        assign(assign(scopes, name, value)->Ok_0, name, value) is Ok,
{
    let depth = innermost(scopes, name)->Some_0;
    let after = assign(scopes, name, value)->Ok_0;
    lemma_innermost(scopes, name);
    assert(after[depth].contains_key(name));
    assert forall|above: int| depth < above < after.len() implies !after[above].contains_key(name) by {
        assert(after[above] == scopes[above]);
    }
    lemma_innermost_is(after, name, depth);
    let chain = after + below;
    assert(chain[depth] == after[depth]);
    assert forall|above: int| depth < above < chain.len() implies !chain[above].contains_key(name) by {
        if above < after.len() {
            assert(chain[above] == scopes[above]);
        } else {
            assert(chain[above] == below[above - after.len()]);
        }
    }
    lemma_innermost_is(chain, name, depth);
}

/// Every binding of `before` is a binding of `after` with the same
/// mutability, and with the same value if it is immutable.
pub open spec fn scope_kept<V>(before: Map<usize, Variable<V>>, after: Map<usize, Variable<V>>) -> bool {
    forall|name: usize| #[trigger]
        before.contains_key(name) ==> {
            &&& after.contains_key(name)
            &&& after[name].mutable == before[name].mutable
            &&& !before[name].mutable ==> after[name] == before[name]
        }
}

/// `after` binds the names that `before` binds, each with the same
/// mutability, and with the same value if it is immutable.
pub open spec fn scope_assigned<V>(before: Map<usize, Variable<V>>, after: Map<usize, Variable<V>>) -> bool {
    &&& scope_kept(before, after)
    &&& forall|name: usize| #[trigger] after.contains_key(name) ==> before.contains_key(name)
}

/// `after` is `before` after declarations in the innermost scope and
/// assignments anywhere: no scope was entered or left for good, no binding
/// was lost or changed its mutability, no immutable binding changed its
/// value, and only the innermost scope gained names.
pub open spec fn extended<V>(before: Scopes<V>, after: Scopes<V>) -> bool {
    &&& after.len() == before.len()
    &&& forall|depth: int|
        #![trigger after[depth]]
        0 <= depth < before.len() ==> {
            &&& scope_kept(before[depth], after[depth])
            &&& depth < before.len() - 1 ==> scope_assigned(before[depth], after[depth])
        }
}

/// `after` is `before` after assignments alone: the same scopes with the
/// same names, of which only mutable ones may have another value.
pub open spec fn only_assigned<V>(before: Scopes<V>, after: Scopes<V>) -> bool {
    &&& after.len() == before.len()
    &&& forall|depth: int|
        #![trigger after[depth]]
        0 <= depth < before.len() ==> scope_assigned(before[depth], after[depth])
}

/// A declaration adds a name to the innermost scope and changes nothing
/// else.
pub proof fn lemma_declare_extends<V>(scopes: Scopes<V>, name: usize, value: V, mutable: bool)
    requires
        scopes.len() > 0,
        declare(scopes, name, value, mutable) is Ok,
    ensures
        extended(scopes, declare(scopes, name, value, mutable)->Ok_0),
{
}

/// An assignment changes the value of one mutable binding and nothing else.
pub proof fn lemma_assign_only_assigns<V>(scopes: Scopes<V>, name: usize, value: V)
    requires
        assign(scopes, name, value) is Ok,
    ensures
        only_assigned(scopes, assign(scopes, name, value)->Ok_0),
{
    lemma_innermost(scopes, name);
}

/// What holds from a first chain to a second and from the second to a third
/// holds from the first to the third.
pub proof fn lemma_extended_twice<V>(first: Scopes<V>, second: Scopes<V>, third: Scopes<V>)
    requires
        extended(first, second),
        extended(second, third),
    ensures
        extended(first, third),
        only_assigned(first, second) && only_assigned(second, third) ==> only_assigned(first, third),
{
    assert forall|depth: int| #![trigger third[depth]] 0 <= depth < first.len() implies {
        &&& scope_kept(first[depth], third[depth])
        &&& depth < first.len() - 1 ==> scope_assigned(first[depth], third[depth])
        &&& only_assigned(first, second) && only_assigned(second, third) ==> scope_assigned(
            first[depth],
            third[depth],
        )
    } by {
        let a = first[depth];
        let b = second[depth];
        let c = third[depth];
        assert(scope_kept(a, b) && scope_kept(b, c));
        assert forall|name: usize| #[trigger] a.contains_key(name) implies {
            &&& c.contains_key(name)
            &&& c[name].mutable == a[name].mutable
            &&& !a[name].mutable ==> c[name] == a[name]
        } by {
            assert(b.contains_key(name));
        }
        if scope_assigned(a, b) && scope_assigned(b, c) {
            assert forall|name: usize| #[trigger] c.contains_key(name) implies a.contains_key(name) by {
                assert(b.contains_key(name));
            }
        }
    }
}

/// Whatever was declared in a scope is gone once the scope is left: of the
/// chain around it, only values of mutable bindings may have changed.
pub proof fn lemma_left_scope<V>(scopes: Scopes<V>, inner: Scopes<V>)
    requires
        extended(enter(scopes), inner),
    ensures
        only_assigned(scopes, leave(inner)),
{
    let entered = enter(scopes);
    let left = leave(inner);
    assert forall|depth: int| #![trigger left[depth]] 0 <= depth < scopes.len() implies scope_assigned(
        scopes[depth],
        left[depth],
    ) by {
        assert(left[depth] == inner[depth]);
        assert(entered[depth] == scopes[depth]);
    }
}

/// The variable environment of the checking pass. A block gets a scope of its
/// own on entry and loses it on exit; a lookup that the innermost scope cannot
/// answer falls through to the scopes around it.
pub struct VariableMap<V> {
    scopes: Vec<HashMap<usize, Variable<V>>>,
}

impl<V> View for VariableMap<V> {
    type V = Scopes<V>;

    closed spec fn view(&self) -> Scopes<V> {
        self.scopes@.map_values(|scope: HashMap<usize, Variable<V>>| scope@)
    }
}

impl<V> VariableMap<V> {
    /// There is always an innermost scope.
    pub open spec fn wf(&self) -> bool {
        self@.len() > 0
    }

    /// An environment with one empty scope, the root.
    pub fn new() -> (env: VariableMap<V>)
        ensures
            env.wf(),
            env@ == seq![Map::<usize, Variable<V>>::empty()],
    {
        let mut scopes: Vec<HashMap<usize, Variable<V>>> = Vec::new();
        scopes.push(HashMap::new());
        let env = VariableMap { scopes };
        assert(env@ =~= seq![Map::<usize, Variable<V>>::empty()]);
        env
    }

    /// The number of scopes in the chain.
    pub fn depth(&self) -> (depth: usize)
        ensures
            depth == self@.len(),
    {
        self.scopes.len()
    }

    /// Opens a child scope of the current innermost scope.
    pub fn enter_scope(&mut self)
        ensures
            final(self)@ == enter(old(self)@),
            final(self).wf(),
    {
        self.scopes.push(HashMap::new());
        assert(self@ =~= enter(old(self)@));
    }

    /// Discards the innermost scope with everything declared in it. The root
    /// scope stays.
    pub fn leave_scope(&mut self)
        requires
            old(self)@.len() > 1,
        ensures
            final(self)@ == leave(old(self)@),
            final(self).wf(),
    {
        self.scopes.pop();
        assert(self@ =~= leave(old(self)@));
    }

    /// Declares `name` in the innermost scope.
    pub fn add(&mut self, name: Identifier, value: V, mutable: bool) -> (result: Result<
        (),
        VariableError,
    >)
        requires
            old(self).wf(),
        ensures
            match declare(old(self)@, name.index, value, mutable) {
                Ok(scopes) => result is Ok && final(self)@ == scopes,
                Err(error) => result == Err::<(), VariableError>(error) && final(self)@ == old(
                    self,
                )@,
            },
            final(self)@.len() == old(self)@.len(),
    {
        let top = self.scopes.len() - 1;
        if self.scopes[top].contains_key(&name.index) {
            Err(VariableError::VariableAlreadyDefined)
        } else {
            self.scopes[top].insert(name.index, Variable { value, mutable });
            assert(self@ =~= old(self)@.update(
                top as int,
                old(self)@.last().insert(name.index, Variable { value, mutable }),
            ));
            Ok(())
        }
    }

    /// Assigns `value` to the binding that a reference to `name` sees.
    pub fn set(&mut self, name: Identifier, value: V) -> (result: Result<(), VariableError>)
        requires
            old(self).wf(),
        ensures
            match assign(old(self)@, name.index, value) {
                Ok(scopes) => result is Ok && final(self)@ == scopes,
                Err(error) => result == Err::<(), VariableError>(error) && final(self)@ == old(
                    self,
                )@,
            },
            final(self)@.len() == old(self)@.len(),
    {
        let mut depth = self.scopes.len();
        while depth > 0
            invariant
                depth <= self.scopes.len(),
                *self == *old(self),
                forall|above: int| depth <= above < self@.len() ==> !self@[above].contains_key(name.index),
            decreases depth,
        {
            depth = depth - 1;
            let found = match self.scopes[depth].get(&name.index) {
                Some(variable) => Some(variable.mutable),
                None => None,
            };
            match found {
                Some(mutable) => {
                    proof {
                        assert(self@[depth as int] == self.scopes@[depth as int]@);
                        lemma_innermost_is(self@, name.index, depth as int);
                    }
                    if mutable {
                        self.scopes[depth].insert(name.index, Variable { value, mutable: true });
                        assert(self@ =~= old(self)@.update(
                            depth as int,
                            old(self)@[depth as int].insert(
                                name.index,
                                Variable { value, mutable: true },
                            ),
                        ));
                        return Ok(());
                    } else {
                        return Err(VariableError::CannotAssignImmutableVariable);
                    }
                },
                None => {
                    assert(self@[depth as int] == self.scopes@[depth as int]@);
                },
            }
        }
        proof {
            lemma_innermost(self@, name.index);
            if self@.len() > 0 {
                assert(!self@[0].contains_key(name.index));
            }
        }
        Err(VariableError::UndefinedVariable)
    }

    /// The value that a reference to `name` sees, if any scope in the chain
    /// declares it.
    pub fn get(&self, name: Identifier) -> (value: Option<&V>)
        ensures
            match value {
                Some(v) => lookup(self@, name.index) == Some(*v),
                None => lookup(self@, name.index) is None,
            },
    {
        let mut depth = self.scopes.len();
        while depth > 0
            invariant
                depth <= self.scopes.len(),
                forall|above: int| depth <= above < self@.len() ==> !self@[above].contains_key(name.index),
            decreases depth,
        {
            depth = depth - 1;
            match self.scopes[depth].get(&name.index) {
                Some(variable) => {
                    proof {
                        assert(self@[depth as int] == self.scopes@[depth as int]@);
                        lemma_innermost_is(self@, name.index, depth as int);
                    }
                    return Some(&variable.value);
                },
                None => {
                    assert(self@[depth as int] == self.scopes@[depth as int]@);
                },
            }
        }
        proof {
            lemma_innermost(self@, name.index);
            if self@.len() > 0 {
                assert(!self@[0].contains_key(name.index));
            }
        }
        None
    }
}

} // verus!
