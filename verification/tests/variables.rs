use graph_checker::context::{Context, Identifier};
use graph_checker::variables::{VariableError, VariableMap};

fn id(index: usize) -> Identifier {
    Identifier { index }
}

#[test]
fn new_environment_has_one_scope() {
    let env: VariableMap<u8> = VariableMap::new();
    assert_eq!(env.depth(), 1);
    assert_eq!(env.get(id(0)), None);
}

#[test]
fn declaring_twice_in_one_scope_fails() {
    let mut env: VariableMap<u8> = VariableMap::new();
    assert_eq!(env.add(id(3), 10, false), Ok(()));
    assert_eq!(env.add(id(3), 11, false), Err(VariableError::VariableAlreadyDefined));
    assert_eq!(env.get(id(3)), Some(&10));
}

#[test]
fn declaring_twice_fails_whatever_the_mutability() {
    let mut env: VariableMap<u8> = VariableMap::new();
    assert_eq!(env.add(id(3), 10, true), Ok(()));
    assert_eq!(env.add(id(3), 11, false), Err(VariableError::VariableAlreadyDefined));
    let mut env: VariableMap<u8> = VariableMap::new();
    assert_eq!(env.add(id(3), 10, false), Ok(()));
    assert_eq!(env.add(id(3), 11, true), Err(VariableError::VariableAlreadyDefined));
}

#[test]
fn child_scope_shadows_without_touching_the_parent() {
    let mut env: VariableMap<u8> = VariableMap::new();
    assert_eq!(env.add(id(1), 10, false), Ok(()));
    env.enter_scope();
    assert_eq!(env.depth(), 2);
    assert_eq!(env.get(id(1)), Some(&10));
    assert_eq!(env.add(id(1), 20, true), Ok(()));
    assert_eq!(env.get(id(1)), Some(&20));
    env.leave_scope();
    assert_eq!(env.depth(), 1);
    assert_eq!(env.get(id(1)), Some(&10));
    assert_eq!(env.set(id(1), 30), Err(VariableError::CannotAssignImmutableVariable));
}

#[test]
fn child_declarations_do_not_leak() {
    let mut env: VariableMap<u8> = VariableMap::new();
    env.enter_scope();
    assert_eq!(env.add(id(7), 1, false), Ok(()));
    env.leave_scope();
    assert_eq!(env.get(id(7)), None);
    env.enter_scope();
    assert_eq!(env.get(id(7)), None);
    assert_eq!(env.add(id(7), 2, false), Ok(()));
    assert_eq!(env.get(id(7)), Some(&2));
}

#[test]
fn assigning_to_an_immutable_variable_fails() {
    let mut env: VariableMap<u8> = VariableMap::new();
    assert_eq!(env.add(id(2), 10, false), Ok(()));
    assert_eq!(env.set(id(2), 11), Err(VariableError::CannotAssignImmutableVariable));
    assert_eq!(env.get(id(2)), Some(&10));
}

#[test]
fn assigning_to_an_undeclared_variable_fails() {
    let mut env: VariableMap<u8> = VariableMap::new();
    assert_eq!(env.set(id(2), 11), Err(VariableError::UndefinedVariable));
    assert_eq!(env.get(id(2)), None);
}

#[test]
fn assigning_to_a_mutable_variable_is_seen_by_later_lookups() {
    let mut env: VariableMap<u8> = VariableMap::new();
    assert_eq!(env.add(id(2), 10, true), Ok(()));
    assert_eq!(env.set(id(2), 11), Ok(()));
    assert_eq!(env.get(id(2)), Some(&11));
    env.enter_scope();
    env.enter_scope();
    assert_eq!(env.get(id(2)), Some(&11));
    assert_eq!(env.set(id(2), 12), Ok(()));
    assert_eq!(env.get(id(2)), Some(&12));
    env.leave_scope();
    env.leave_scope();
    assert_eq!(env.get(id(2)), Some(&12));
    assert_eq!(env.depth(), 1);
}

#[test]
fn assignment_reaches_the_innermost_declaration_only() {
    let mut env: VariableMap<u8> = VariableMap::new();
    assert_eq!(env.add(id(2), 10, true), Ok(()));
    env.enter_scope();
    assert_eq!(env.add(id(2), 20, true), Ok(()));
    assert_eq!(env.set(id(2), 21), Ok(()));
    assert_eq!(env.get(id(2)), Some(&21));
    env.leave_scope();
    assert_eq!(env.get(id(2)), Some(&10));
}

#[test]
fn immutable_shadow_blocks_assignment_to_outer_mutable() {
    let mut env: VariableMap<u8> = VariableMap::new();
    assert_eq!(env.add(id(2), 10, true), Ok(()));
    env.enter_scope();
    assert_eq!(env.add(id(2), 20, false), Ok(()));
    assert_eq!(env.set(id(2), 21), Err(VariableError::CannotAssignImmutableVariable));
    env.leave_scope();
    assert_eq!(env.set(id(2), 11), Ok(()));
    assert_eq!(env.get(id(2)), Some(&11));
}

#[test]
fn interning_gives_each_name_one_handle() {
    let mut ctx = Context::new();
    assert_eq!(ctx.len(), 0);
    let a = ctx.add_identifier("alpha");
    let b = ctx.add_identifier("beta");
    let again = ctx.add_identifier("alpha");
    assert_eq!(a, Identifier { index: 0 });
    assert_eq!(b, Identifier { index: 1 });
    assert_eq!(again, a);
    assert_eq!(ctx.len(), 2);
    assert_eq!(ctx.resolve(a), "alpha");
    assert_eq!(ctx.resolve(b), "beta");
    assert_eq!(ctx.get_identifier("beta"), Some(b));
    assert_eq!(ctx.get_identifier("gamma"), None);
}

#[test]
fn refused_declaration_leaves_the_binding_as_it_was() {
    let mut env: VariableMap<u8> = VariableMap::new();
    assert_eq!(env.add(id(3), 10, true), Ok(()));
    assert_eq!(env.add(id(3), 11, false), Err(VariableError::VariableAlreadyDefined));
    assert_eq!(env.get(id(3)), Some(&10));
    // The binding is still mutable.
    assert_eq!(env.set(id(3), 12), Ok(()));
    assert_eq!(env.get(id(3)), Some(&12));
    assert_eq!(env.depth(), 1);
}

#[test]
fn refused_assignment_leaves_every_scope_as_it_was() {
    let mut env: VariableMap<u8> = VariableMap::new();
    assert_eq!(env.add(id(2), 10, true), Ok(()));
    env.enter_scope();
    assert_eq!(env.add(id(2), 20, false), Ok(()));
    assert_eq!(env.set(id(2), 21), Err(VariableError::CannotAssignImmutableVariable));
    assert_eq!(env.get(id(2)), Some(&20));
    assert_eq!(env.depth(), 2);
    env.leave_scope();
    assert_eq!(env.get(id(2)), Some(&10));
    assert_eq!(env.set(id(5), 1), Err(VariableError::UndefinedVariable));
    assert_eq!(env.get(id(5)), None);
    assert_eq!(env.add(id(5), 1, false), Ok(()));
}
