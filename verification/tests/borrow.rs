use semcode::borrow::{access_paths_overlap, ensure_write_path_allowed};
use semcode::runtime_core::{AccessPath, PathComponent, RuntimeTrap, SymbolId};
use semcode::vm::RuntimeError;

fn pair_path() -> AccessPath {
    AccessPath::new(SymbolId(3))
}

#[test]
fn builders_append_components() {
    let p = pair_path().tuple_index(0).field(SymbolId(7));
    assert_eq!(p.root, SymbolId(3));
    assert_eq!(
        p.components,
        vec![PathComponent::TupleIndex(0), PathComponent::Field(SymbolId(7))]
    );
}

#[test]
fn same_path_overlaps() {
    let a = pair_path().tuple_index(0);
    assert!(access_paths_overlap(&a, &a.clone()));
}

#[test]
fn parent_and_child_overlap_both_ways() {
    let parent = pair_path();
    let child = pair_path().tuple_index(1);
    assert!(access_paths_overlap(&parent, &child));
    assert!(access_paths_overlap(&child, &parent));
}

#[test]
fn siblings_and_other_roots_do_not_overlap() {
    let left = pair_path().tuple_index(0);
    let right = pair_path().tuple_index(1);
    assert!(!access_paths_overlap(&left, &right));
    let other = AccessPath::new(SymbolId(4)).tuple_index(0);
    assert!(!access_paths_overlap(&left, &other));
    let f1 = pair_path().field(SymbolId(1));
    let f2 = pair_path().field(SymbolId(2));
    assert!(!access_paths_overlap(&f1, &f2));
    assert!(!access_paths_overlap(&left, &pair_path().field(SymbolId(0))));
}

#[test]
fn write_over_a_borrow_traps() {
    let borrowed = vec![pair_path().tuple_index(0)];
    assert_eq!(
        ensure_write_path_allowed("pair", &pair_path().tuple_index(0), &borrowed),
        Err(RuntimeError::Trap(RuntimeTrap::BorrowWriteConflict))
    );
    assert_eq!(
        ensure_write_path_allowed("pair", &pair_path(), &borrowed),
        Err(RuntimeError::Trap(RuntimeTrap::BorrowWriteConflict))
    );
}

#[test]
fn write_beside_a_borrow_is_allowed() {
    let borrowed = vec![pair_path().tuple_index(0), AccessPath::new(SymbolId(9))];
    assert_eq!(ensure_write_path_allowed("pair", &pair_path().tuple_index(1), &borrowed), Ok(()));
    assert_eq!(ensure_write_path_allowed("pair", &pair_path(), &[]), Ok(()));
}
