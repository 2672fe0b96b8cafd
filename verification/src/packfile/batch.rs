//! Working through a list in batches: stretches of bounded length, one after the other.

use vstd::prelude::*;

verus! {

/// The stretch `from..to` of a list.
#[derive(Clone, Copy, Debug, PartialEq, Eq, Structural)]
pub struct Batch {
    pub from: usize,
    pub to: usize,
}

impl Batch {
    /// The stretch is neither empty nor longer than `size`, and is shorter only at the end of a list
    /// of `total` items.
    pub open spec fn is_chunk(self, total: nat, size: nat) -> bool {
        &&& self.from < self.to <= total
        &&& self.to - self.from <= size
        &&& self.to < total ==> self.to - self.from == size
    }
}

/// The batch that starts at `from`, if there is anything left there.
pub open spec fn batch_at(from: nat, total: nat, size: nat) -> Option<Batch> {
    if from >= total {
        None
    } else if total - from <= size {
        Some(Batch { from: from as usize, to: total as usize })
    } else {
        Some(Batch { from: from as usize, to: (from + size) as usize })
    }
}

/// The batch of at most `size` items that starts at `from` in a list of `total` items.
pub fn next_batch(from: usize, total: usize, size: usize) -> (batch: Option<Batch>)
    requires
        size > 0,
    ensures
        batch == batch_at(from as nat, total as nat, size as nat),
        batch is None <==> from >= total,
        batch matches Some(b) ==> b.from == from && b.is_chunk(total as nat, size as nat),
{
    if from >= total {
        None
    } else if total - from <= size {
        Some(Batch { from, to: total })
    } else {
        Some(Batch { from, to: from + size })
    }
}

/// A batch starts where it was asked to and is as long as the size, or as long as what is left; there
/// is none exactly where nothing is left. So batches that follow one another leave nothing out.
pub proof fn law_batch_takes_what_fits(from: usize, total: usize, size: usize, batch: Option<Batch>)
    requires
        size > 0,
        call_ensures(next_batch, (from, total, size), batch),
    ensures
        match batch {
            Some(b) => {
                &&& b.from == from
                &&& from < b.to <= total
                &&& b.to == total || b.to == from + size
                &&& b.to <= from + size
            },
            None => from >= total,
        },
        batch == batch_at(from as nat, total as nat, size as nat),
{
}

} // verus!
