use vstd::prelude::*;

use std::cmp::Ordering;
use vstd::std_specs::cmp::PartialOrdSpecImpl;

use crate::terrain::ChunkIndex;

verus! {

/// Chunks are ordered by column first, then by row within a column.
pub open spec fn chunk_order(a: ChunkIndex, b: ChunkIndex) -> Ordering {
    if a.x < b.x {
        Ordering::Less
    } else if a.x > b.x {
        Ordering::Greater
    } else if a.y < b.y {
        Ordering::Less
    } else if a.y > b.y {
        Ordering::Greater
    } else {
        Ordering::Equal
    }
}

impl PartialOrd for ChunkIndex {
    fn partial_cmp(&self, other: &Self) -> (r: Option<Ordering>) {
        if self.x < other.x {
            Some(Ordering::Less)
        } else if self.x > other.x {
            Some(Ordering::Greater)
        } else if self.y < other.y {
            Some(Ordering::Less)
        } else if self.y > other.y {
            Some(Ordering::Greater)
        } else {
            Some(Ordering::Equal)
        }
    }
}

impl PartialOrdSpecImpl for ChunkIndex {
    open spec fn obeys_partial_cmp_spec() -> bool {
        true
    }

    open spec fn partial_cmp_spec(&self, other: &ChunkIndex) -> Option<Ordering> {
        Some(chunk_order(*self, *other))
    }
}

/// The order of chunks is that of their keys: compare two chunks as the pairs
/// `(x, y)` compare.
pub proof fn law_chunk_order_is_key_order(a: ChunkIndex, b: ChunkIndex)
    ensures
        (chunk_order(a, b) == Ordering::Equal) == (a == b),
        (chunk_order(a, b) == Ordering::Less) == (a.x < b.x || (a.x == b.x && a.y < b.y)),
        chunk_order(a, b) == Ordering::Less <==> chunk_order(b, a) == Ordering::Greater,
{
}

} // verus!
