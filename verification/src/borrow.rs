//! The borrow rule of a frame: a write to a local may not touch a place
//! that an active borrow of the frame covers.
use crate::runtime_core::{AccessPath, PathComponent, RuntimeTrap};
use crate::vm::RuntimeError;
use vstd::prelude::*;

verus! {

/// Two paths overlap when they start at the same local and one is a prefix
/// of the other: they agree on every step that both have.
pub open spec fn paths_overlap(a: AccessPath, b: AccessPath) -> bool {
    let n = if a.components@.len() <= b.components@.len() {
        a.components@.len()
    } else {
        b.components@.len()
    };
    a.root == b.root && a.components@.take(n as int) == b.components@.take(n as int)
}

/// Whether `lhs` and `rhs` overlap.
pub fn access_paths_overlap(lhs: &AccessPath, rhs: &AccessPath) -> (r: bool)
    ensures
        r == paths_overlap(*lhs, *rhs),
{
    if lhs.root != rhs.root {
        return false;
    }
    let n = if lhs.components.len() <= rhs.components.len() {
        lhs.components.len()
    } else {
        rhs.components.len()
    };
    let mut k: usize = 0;
    while k < n
        invariant
            k <= n,
            n <= lhs.components@.len(),
            n <= rhs.components@.len(),
            forall|j: int| 0 <= j < k ==> lhs.components@[j] == rhs.components@[j],
        decreases n - k,
    {
        let a: PathComponent = lhs.components[k];
        let b: PathComponent = rhs.components[k];
        if a != b {
            assert(lhs.components@.take(n as int)[k as int] != rhs.components@.take(n as int)[k as int]);
            return false;
        }
        k = k + 1;
    }
    assert(lhs.components@.take(n as int) =~= rhs.components@.take(n as int));
    true
}

/// Allows a write to `write_path` of the local `_symbol_name` unless it
/// overlaps one of `borrowed_paths`, which traps with a borrow/write
/// conflict.
pub fn ensure_write_path_allowed(
    _symbol_name: &str,
    write_path: &AccessPath,
    borrowed_paths: &[AccessPath],
) -> (r: Result<(), RuntimeError>)
    ensures
        (exists|i: int| 0 <= i < borrowed_paths@.len() && paths_overlap(*write_path, #[trigger] borrowed_paths@[i]))
            ==> r == Err::<(), RuntimeError>(RuntimeError::Trap(RuntimeTrap::BorrowWriteConflict)),
        (forall|i: int| 0 <= i < borrowed_paths@.len() ==> !paths_overlap(*write_path, #[trigger] borrowed_paths@[i]))
            ==> r is Ok,
{
    let mut i: usize = 0;
    while i < borrowed_paths.len()
        invariant
            i <= borrowed_paths@.len(),
            forall|j: int| 0 <= j < i ==> !paths_overlap(*write_path, #[trigger] borrowed_paths@[j]),
        decreases borrowed_paths@.len() - i,
    {
        if access_paths_overlap(write_path, &borrowed_paths[i]) {
            return Err(RuntimeError::Trap(RuntimeTrap::BorrowWriteConflict));
        }
        i = i + 1;
    }
    Ok(())
}

} // verus!
