//! Refinement stages and groups of the growing network.

use vstd::prelude::*;

verus! {

/// Refinement level of a path.  `0` is the primary layer (e.g. highways);
/// higher stages are finer layers (e.g. streets).
#[derive(Debug, Clone, Copy, PartialEq, Eq, Structural)]
pub struct Stage(pub usize);

/// Identifier of a group of connected origins.
#[derive(Debug, Clone, Copy, PartialEq, Eq, Structural)]
pub struct Group(pub usize);

impl Stage {
    /// The stage with the given level.
    pub fn new(stage: usize) -> (r: Self)
        ensures
            r.as_int() == stage,
    {
        Self(stage)
    }

    /// The level of this stage.
    pub fn as_num(&self) -> (r: usize)
        ensures
            r == self.as_int(),
    {
        self.0
    }

    /// The next finer stage.
    pub fn incremented(self) -> (r: Self)
        requires
            self.as_int() < usize::MAX,
        ensures
            r.as_int() == self.as_int() + 1,
    {
        Self(self.0 + 1)
    }

    /// The level of this stage, as a mathematical integer.
    pub open spec fn as_int(self) -> int {
        self.0 as int
    }
}

impl Group {
    /// The group with the given number.
    pub fn new(group: usize) -> (r: Self)
        ensures
            r.as_int() == group,
    {
        Self(group)
    }

    /// The number of this group.
    pub fn as_num(&self) -> (r: usize)
        ensures
            r == self.as_int(),
    {
        self.0
    }

    /// The number of this group, as a mathematical integer.
    pub open spec fn as_int(self) -> int {
        self.0 as int
    }
}

} // verus!
