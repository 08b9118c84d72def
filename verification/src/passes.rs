//! Optimisation passes over an IR module and the report they return.
use crate::ir::IrFunction;
use vstd::prelude::*;

pub mod cleanup;
pub mod crystalfold;

verus! {

/// What a pass did: whether anything changed, and how many rewrites it made.
#[derive(Debug, Clone, Copy, PartialEq, Eq, Structural)]
pub struct OptReport {
    pub changed: bool,
    pub num_rewrites: u32,
}

impl Default for OptReport {
    fn default() -> (r: Self)
        ensures
            r == (OptReport { changed: false, num_rewrites: 0 }),
    {
        OptReport { changed: false, num_rewrites: 0 }
    }
}

/// `a + b`, capped at `u32::MAX`.
pub open spec fn sat_add_u32(a: u32, b: u32) -> u32 {
    if a + b > u32::MAX {
        u32::MAX
    } else {
        (a + b) as u32
    }
}

impl OptReport {
    /// Folds `other` into `self`: changed if either changed, rewrites added
    /// with saturation.
    pub fn merge(&mut self, other: OptReport)
        ensures
            final(self).changed == (old(self).changed || other.changed),
            final(self).num_rewrites == sat_add_u32(old(self).num_rewrites, other.num_rewrites),
    {
        self.changed = self.changed || other.changed;
        self.num_rewrites = self.num_rewrites.saturating_add(other.num_rewrites);
    }
}

/// The functions a pass works on.
#[derive(Debug, Clone, PartialEq)]
pub struct IrModule {
    pub functions: Vec<IrFunction>,
}

/// A rewrite over a whole module.
pub trait OptPass {
    /// The pass's name.
    fn name(&self) -> &'static str;

    /// The pass's version.
    fn version(&self) -> u32;

    /// Runs the pass and reports what it did.
    fn run(&self, ir: &mut IrModule) -> OptReport;
}

/// Merging reports is associative and has the empty report as unit.
pub proof fn lemma_merge_monoid(a: OptReport, b: OptReport, c: OptReport)
    ensures
        sat_add_u32(sat_add_u32(a.num_rewrites, b.num_rewrites), c.num_rewrites) == sat_add_u32(
            a.num_rewrites,
            sat_add_u32(b.num_rewrites, c.num_rewrites),
        ),
        sat_add_u32(a.num_rewrites, 0) == a.num_rewrites,
        sat_add_u32(0, a.num_rewrites) == a.num_rewrites,
{
}

} // verus!
