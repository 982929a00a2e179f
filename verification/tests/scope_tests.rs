use newt::scope::{NewtRuntimeError, ScopeNode, Scopes};

#[test]
fn lexical_scope_can_resolve_immediately_after_binding() {
    let mut scopes: Scopes<i64> = Scopes::new();
    let scope = ScopeNode::new(&mut scopes);

    scope.bind(&mut scopes, "foo", 42).unwrap();
    scope.bind(&mut scopes, "bar", 32).unwrap();

    assert_eq!(Ok(42), scope.resolve(&scopes, "foo"));
    assert_eq!(Ok(32), scope.resolve(&scopes, "bar"));
}

#[test]
fn lexical_scope_returns_undefined_variable_error_when_resolving_fails() {
    let mut scopes: Scopes<i64> = Scopes::new();
    let scope = ScopeNode::new(&mut scopes);

    assert_eq!(Err(NewtRuntimeError::UndefinedVariable), scope.resolve(&scopes, "zoo"));
}

#[test]
fn lexical_scope_can_resolve_top_scope_when_scopes_are_nested() {
    let mut scopes: Scopes<i64> = Scopes::new();
    let outer = ScopeNode::new(&mut scopes);

    outer.bind(&mut scopes, "foo", 42).unwrap();
    let scope = ScopeNode::new_with_scope(&mut scopes, &outer);
    scope.bind(&mut scopes, "bar", 32).unwrap();
    let top_scope = scope.clone();

    let scope = outer;
    scope.bind(&mut scopes, "zoo", 22).unwrap();

    assert_eq!(Ok(42), scope.resolve(&scopes, "foo"));
    assert_eq!(Err(NewtRuntimeError::UndefinedVariable), scope.resolve(&scopes, "bar"));
    assert_eq!(Ok(32), top_scope.resolve(&scopes, "bar"));
    assert_eq!(Ok(22), scope.resolve(&scopes, "zoo"));
}

#[test]
fn scope_refuses_a_second_binding_of_a_name() {
    let mut scopes: Scopes<i64> = Scopes::new();
    let scope = ScopeNode::new(&mut scopes);

    assert_eq!(Ok(()), scope.bind(&mut scopes, "foo", 1));
    assert_eq!(Err(NewtRuntimeError::DuplicateDeclaration), scope.bind(&mut scopes, "foo", 2));
    assert_eq!(Ok(1), scope.resolve(&scopes, "foo"));
}

#[test]
fn inner_scope_may_shadow_an_outer_binding() {
    let mut scopes: Scopes<i64> = Scopes::new();
    let outer = ScopeNode::new(&mut scopes);
    outer.bind(&mut scopes, "foo", 1).unwrap();
    let inner = ScopeNode::new_with_scope(&mut scopes, &outer);

    assert_eq!(Ok(()), inner.bind(&mut scopes, "foo", 2));
    assert_eq!(Ok(2), inner.resolve(&scopes, "foo"));
    assert_eq!(Ok(1), outer.resolve(&scopes, "foo"));
}

#[test]
fn opened_scope_does_not_see_later_outer_bindings() {
    let mut scopes: Scopes<i64> = Scopes::new();
    let outer = ScopeNode::new(&mut scopes);
    outer.bind(&mut scopes, "foo", 42).unwrap();
    let closure = ScopeNode::new_with_scope(&mut scopes, &outer);
    outer.bind(&mut scopes, "zoo", 22).unwrap();

    assert_eq!(Ok(42), closure.resolve(&scopes, "foo"));
    assert_eq!(Err(NewtRuntimeError::UndefinedVariable), closure.resolve(&scopes, "zoo"));
    assert_eq!(Ok(22), outer.resolve(&scopes, "zoo"));
}

#[test]
fn scope_opened_in_root_resolves_as_root() {
    let mut scopes: Scopes<i64> = Scopes::new();
    let root = ScopeNode::new(&mut scopes);
    root.bind(&mut scopes, "a", 1).unwrap();
    root.bind(&mut scopes, "b", 2).unwrap();
    let inner = ScopeNode::new_with_scope(&mut scopes, &root);

    for name in ["a", "b", "c"] {
        assert_eq!(root.resolve(&scopes, name), inner.resolve(&scopes, name));
    }
}

#[test]
fn assign_changes_the_nearest_binding() {
    let mut scopes: Scopes<i64> = Scopes::new();
    let outer = ScopeNode::new(&mut scopes);
    outer.bind(&mut scopes, "foo", 1).unwrap();
    let inner = ScopeNode::new_with_scope(&mut scopes, &outer);

    assert_eq!(Ok(()), inner.assign(&mut scopes, "foo", 5));
    assert_eq!(Ok(5), outer.resolve(&scopes, "foo"));
    assert_eq!(Ok(5), inner.resolve(&scopes, "foo"));

    inner.bind(&mut scopes, "foo", 7).unwrap();
    assert_eq!(Ok(()), inner.assign(&mut scopes, "foo", 9));
    assert_eq!(Ok(9), inner.resolve(&scopes, "foo"));
    assert_eq!(Ok(5), outer.resolve(&scopes, "foo"));
}

#[test]
fn assign_to_an_unbound_name_is_refused() {
    let mut scopes: Scopes<i64> = Scopes::new();
    let outer = ScopeNode::new(&mut scopes);
    let inner = ScopeNode::new_with_scope(&mut scopes, &outer);

    assert_eq!(Err(NewtRuntimeError::UndefinedVariable), inner.assign(&mut scopes, "foo", 1));
    assert_eq!(Err(NewtRuntimeError::UndefinedVariable), inner.resolve(&scopes, "foo"));
    assert_eq!(2, scopes.len());
}

#[test]
fn copies_of_a_scope_share_its_bindings() {
    let mut scopes: Scopes<String> = Scopes::new();
    let scope = ScopeNode::new(&mut scopes);
    let copy = scope;

    copy.bind(&mut scopes, "name", "newt".to_string()).unwrap();
    assert_eq!(Ok("newt".to_string()), scope.resolve(&scopes, "name"));
}
