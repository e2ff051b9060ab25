use ownership_sim::bindings::{BindingTable, Role};
use ownership_sim::fault::FaultKind;
use ownership_sim::store::{OwnState, ValueStore};
use ownership_sim::tracker::{access, AccessKind};
use ownership_sim::value::{Value, Width};

fn num(n: i128) -> Value {
    Value::Integer { width: Width::W32, signed: true, value: n }
}

fn text(s: &str) -> Value {
    Value::Text(String::from(s))
}

fn name(s: &str) -> String {
    String::from(s)
}

#[test]
fn unknown_name_does_not_resolve() {
    let mut table = BindingTable::new();
    assert_eq!(table.depth(), 0);
    assert_eq!(table.resolve(&name("x")), Err(FaultKind::UnknownName));
    assert_eq!(table.lookup(&name("x")), None);
    table.push_scope();
    table.declare(name("y"), 0, Role::Owner);
    assert_eq!(table.resolve(&name("x")), Err(FaultKind::UnknownName));
    assert_eq!(table.resolve(&name("")), Err(FaultKind::UnknownName));
}

#[test]
fn declared_name_resolves_to_its_slot() {
    let mut table = BindingTable::new();
    table.push_scope();
    table.declare(name("x"), 3, Role::Owner);
    table.declare(name("r"), 3, Role::Shared);
    table.declare(name("w"), 4, Role::Exclusive);
    assert_eq!(table.resolve(&name("x")), Ok(3));
    assert_eq!(table.lookup(&name("x")), Some((3, Role::Owner)));
    assert_eq!(table.lookup(&name("r")), Some((3, Role::Shared)));
    assert_eq!(table.lookup(&name("w")), Some((4, Role::Exclusive)));
}

#[test]
fn declare_without_a_scope_opens_one() {
    let mut table = BindingTable::new();
    table.declare(name("x"), 0, Role::Owner);
    assert_eq!(table.depth(), 1);
    assert_eq!(table.resolve(&name("x")), Ok(0));
}

#[test]
fn redeclaration_shadows_and_keeps_the_former_slot() {
    let mut store = ValueStore::new();
    let mut table = BindingTable::new();
    table.push_scope();
    let first = store.allocate(Value::Enum { variants: 2, tag: 1, payload: None });
    table.declare(name("option"), first, Role::Owner);
    let second = store.allocate(Value::Enum { variants: 2, tag: 0, payload: Some(Box::new(num(32))) });
    table.declare(name("option"), second, Role::Owner);
    assert_eq!(table.resolve(&name("option")), Ok(second));
    assert_eq!(store.state(first), Some(OwnState::Owned));
    assert_eq!(store.read(first, false), Ok(Value::Enum { variants: 2, tag: 1, payload: None }));
}

#[test]
fn shadowed_slot_stays_borrowed_until_its_scope_ends() {
    let mut store = ValueStore::new();
    let mut table = BindingTable::new();
    table.push_scope();
    let first = store.allocate(text("one"));
    table.declare(name("s"), first, Role::Owner);
    access(&mut store, first, AccessKind::BorrowShared, false).unwrap();
    table.declare(name("r"), first, Role::Shared);
    let second = store.allocate(text("two"));
    table.declare(name("s"), second, Role::Owner);
    assert_eq!(table.resolve(&name("s")), Ok(second));
    assert_eq!(table.resolve(&name("r")), Ok(first));
    assert_eq!(store.state(first), Some(OwnState::BorrowedShared(1)));
    assert_eq!(store.read(first, false), Ok(text("one")));
    let dropped = table.pop_scope(&mut store);
    assert_eq!(dropped, vec![second, first]);
}

#[test]
fn inner_scope_shadows_outer_and_gives_way_when_it_ends() {
    let mut store = ValueStore::new();
    let mut table = BindingTable::new();
    table.push_scope();
    let outer = store.allocate(num(1));
    table.declare(name("i"), outer, Role::Owner);
    table.push_scope();
    assert_eq!(table.resolve(&name("i")), Ok(outer));
    let inner = store.allocate(num(2));
    table.declare(name("i"), inner, Role::Owner);
    assert_eq!(table.resolve(&name("i")), Ok(inner));
    assert_eq!(table.depth(), 2);
    let dropped = table.pop_scope(&mut store);
    assert_eq!(dropped, vec![inner]);
    assert_eq!(table.depth(), 1);
    assert_eq!(table.resolve(&name("i")), Ok(outer));
    assert_eq!(store.state(outer), Some(OwnState::Owned));
    assert_eq!(store.state(inner), Some(OwnState::Dropped));
}

#[test]
fn scope_exit_drops_in_reverse_declaration_order() {
    let mut store = ValueStore::new();
    let mut table = BindingTable::new();
    table.push_scope();
    let a = store.allocate(text("a"));
    table.declare(name("a"), a, Role::Owner);
    let b = store.allocate(num(2));
    table.declare(name("b"), b, Role::Owner);
    let c = store.allocate(text("c"));
    table.declare(name("c"), c, Role::Owner);
    let dropped = table.pop_scope(&mut store);
    assert_eq!(dropped, vec![c, b, a]);
    assert_eq!(store.state(a), Some(OwnState::Dropped));
    assert_eq!(store.state(b), Some(OwnState::Dropped));
    assert_eq!(store.state(c), Some(OwnState::Dropped));
    assert_eq!(table.depth(), 0);
}

#[test]
fn scope_exit_leaves_moved_out_slots() {
    let mut store = ValueStore::new();
    let mut table = BindingTable::new();
    table.push_scope();
    let a = store.allocate(text("a"));
    table.declare(name("a"), a, Role::Owner);
    let b = store.allocate(text("b"));
    table.declare(name("b"), b, Role::Owner);
    access(&mut store, a, AccessKind::ReadMove, false).unwrap();
    let dropped = table.pop_scope(&mut store);
    assert_eq!(dropped, vec![b]);
    assert_eq!(store.state(a), Some(OwnState::MovedOut));
    assert_eq!(store.state(b), Some(OwnState::Dropped));
}

#[test]
fn scope_exit_gives_borrows_back() {
    let mut store = ValueStore::new();
    let mut table = BindingTable::new();
    table.push_scope();
    let s = store.allocate(text("s"));
    table.declare(name("s"), s, Role::Owner);
    let x = store.allocate(num(10));
    table.declare(name("x"), x, Role::Owner);
    table.push_scope();
    access(&mut store, s, AccessKind::BorrowShared, false).unwrap();
    table.declare(name("r1"), s, Role::Shared);
    access(&mut store, s, AccessKind::BorrowShared, false).unwrap();
    table.declare(name("r2"), s, Role::Shared);
    access(&mut store, x, AccessKind::BorrowExclusive, false).unwrap();
    table.declare(name("w"), x, Role::Exclusive);
    assert_eq!(store.state(s), Some(OwnState::BorrowedShared(2)));
    assert_eq!(store.state(x), Some(OwnState::BorrowedExclusive));
    let dropped = table.pop_scope(&mut store);
    assert_eq!(dropped, Vec::<usize>::new());
    assert_eq!(store.state(s), Some(OwnState::Owned));
    assert_eq!(store.state(x), Some(OwnState::Owned));
    assert_eq!(table.resolve(&name("r1")), Err(FaultKind::UnknownName));
    assert_eq!(table.resolve(&name("s")), Ok(s));
}

#[test]
fn slot_with_an_owner_in_an_enclosing_scope_outlives_the_scope() {
    let mut store = ValueStore::new();
    let mut table = BindingTable::new();
    table.push_scope();
    let s = store.allocate(text("s"));
    table.declare(name("s"), s, Role::Owner);
    assert!(table.owns(s));
    assert!(!table.owns(s + 1));
    table.push_scope();
    table.declare(name("alias"), s, Role::Owner);
    let t = store.allocate(num(1));
    table.declare(name("t"), t, Role::Owner);
    let dropped = table.pop_scope(&mut store);
    assert_eq!(dropped, vec![t]);
    assert_eq!(store.state(s), Some(OwnState::Owned));
    let dropped = table.pop_scope(&mut store);
    assert_eq!(dropped, vec![s]);
}

#[test]
fn two_owners_in_one_scope_drop_their_slot_once() {
    let mut store = ValueStore::new();
    let mut table = BindingTable::new();
    table.push_scope();
    let s = store.allocate(text("s"));
    table.declare(name("a"), s, Role::Owner);
    table.declare(name("b"), s, Role::Owner);
    let dropped = table.pop_scope(&mut store);
    assert_eq!(dropped, vec![s]);
    assert_eq!(store.state(s), Some(OwnState::Dropped));
}

#[test]
fn borrow_binding_does_not_own() {
    let mut table = BindingTable::new();
    table.push_scope();
    table.declare(name("r"), 0, Role::Shared);
    table.declare(name("w"), 1, Role::Exclusive);
    assert!(!table.owns(0));
    assert!(!table.owns(1));
}

#[test]
fn pop_without_a_scope_changes_nothing() {
    let mut store = ValueStore::new();
    let mut table = BindingTable::new();
    let a = store.allocate(num(1));
    let dropped = table.pop_scope(&mut store);
    assert_eq!(dropped, Vec::<usize>::new());
    assert_eq!(table.depth(), 0);
    assert_eq!(store.state(a), Some(OwnState::Owned));
}

#[test]
fn binding_to_a_slot_that_does_not_exist_ends_quietly() {
    let mut store = ValueStore::new();
    let mut table = BindingTable::new();
    table.push_scope();
    table.declare(name("ghost"), 7, Role::Owner);
    table.declare(name("shade"), 8, Role::Shared);
    assert_eq!(table.pop_scope(&mut store), Vec::<usize>::new());
    assert_eq!(store.len(), 0);
}
