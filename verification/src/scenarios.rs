//! Named database scenarios used to exercise query behaviour: each names
//! a fixed arrangement of chunks and deletes that a test harness can
//! build.

use vstd::prelude::*;

verus! {

/// One chunk, one delete predicate that removes every row.
#[derive(Debug, Clone, Copy, PartialEq, Eq, Structural)]
pub struct OneDeleteSimpleExprOneChunkDeleteAll;

/// One chunk, one simple delete predicate.
#[derive(Debug, Clone, Copy, PartialEq, Eq, Structural)]
pub struct OneDeleteSimpleExprOneChunk;

/// One chunk and no deletes.
#[derive(Debug, Clone, Copy, PartialEq, Eq, Structural)]
pub struct NoDeleteOneChunk;

/// One chunk, one delete predicate of several expressions.
#[derive(Debug, Clone, Copy, PartialEq, Eq, Structural)]
pub struct OneDeleteMultiExprsOneChunk;

/// One chunk, two delete predicates of several expressions.
#[derive(Debug, Clone, Copy, PartialEq, Eq, Structural)]
pub struct TwoDeletesMultiExprsOneChunk;

/// Three chunks with three deletes spread across them.
#[derive(Debug, Clone, Copy, PartialEq, Eq, Structural)]
pub struct ThreeDeleteThreeChunks;

} // verus!
