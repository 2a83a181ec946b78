//! The allocator: a cursor that only moves up, and the size of what was
//! handed out at each address.

use vstd::prelude::*;

verus! {

/// The address of the first allocation.
pub const ALLOC_START: u64 = 0x1000_0000;

/// The bytes that an allocation of `bits` bits takes: whole words of 64
/// bits, and at least one.
pub open spec fn reserved_bytes(bits: u64) -> nat {
    if bits == 0 {
        8
    } else {
        (((bits - 1) / 64 + 1) * 8) as nat
    }
}

/// Whether the allocations lie as a cursor that only moves up by whole
/// words leaves them: the cursor stands on a word; every allocation starts
/// on a word and ends at or below the cursor; and an earlier one ends at or
/// below the start of a later one.
pub open spec fn laid_out(cursor: u64, allocations: Seq<(u64, u64)>) -> bool {
    &&& cursor % 8 == 0
    &&& forall|k: int|
        0 <= k < allocations.len() ==> {
            &&& (#[trigger] allocations[k]).0 % 8 == 0
            &&& allocations[k].0 + reserved_bytes(allocations[k].1) <= cursor
        }
    &&& forall|i: int, j: int|
        0 <= i < j < allocations.len() ==> (#[trigger] allocations[i]).0 + reserved_bytes(
            allocations[i].1,
        ) <= (#[trigger] allocations[j]).0
}

/// No two allocations have one address: an address has the one size that
/// was asked for there.
pub proof fn lemma_one_size(cursor: u64, allocations: Seq<(u64, u64)>, addr: u64, a: u64, b: u64)
    requires
        laid_out(cursor, allocations),
        allocations.contains((addr, a)),
        allocations.contains((addr, b)),
    ensures
        a == b,
{
    let i = choose|i: int| 0 <= i < allocations.len() && allocations[i] == (addr, a);
    let j = choose|j: int| 0 <= j < allocations.len() && allocations[j] == (addr, b);
    if i < j {
        assert(allocations[i].0 + reserved_bytes(allocations[i].1) <= allocations[j].0);
    } else if j < i {
        assert(allocations[j].0 + reserved_bytes(allocations[j].1) <= allocations[i].0);
    }
}

/// The cursor is the address of no allocation: each of them lies below
/// it.
pub proof fn lemma_cursor_is_fresh(cursor: u64, allocations: Seq<(u64, u64)>)
    requires
        laid_out(cursor, allocations),
    ensures
        forall|k: int| 0 <= k < allocations.len() ==> (#[trigger] allocations[k]).0 < cursor,
{
}

/// A bump allocator over a 64-bit address space.
pub struct Alloc {
    cursor: u64,
    sizes: Vec<(u64, u64)>,
}

impl Alloc {
    /// The cursor stands on a word; every allocation starts on a word and
    /// ends at or below the cursor, and an earlier one ends at or below the
    /// start of a later one.
    pub closed spec fn wf(self) -> bool {
        &&& self.cursor % 8 == 0
        &&& self.cursor >= ALLOC_START
        &&& forall|k: int|
            0 <= k < self.sizes@.len() ==> {
                &&& (#[trigger] self.sizes@[k]).0 % 8 == 0
                &&& self.sizes@[k].0 >= ALLOC_START
                &&& self.sizes@[k].0 + reserved_bytes(self.sizes@[k].1) <= self.cursor
            }
        &&& forall|i: int, j: int|
            0 <= i < j < self.sizes@.len() ==> (#[trigger] self.sizes@[i]).0 + reserved_bytes(
                self.sizes@[i].1,
            ) <= (#[trigger] self.sizes@[j]).0
    }

    /// The address that the next allocation gets.
    pub closed spec fn cursor(&self) -> u64 {
        self.cursor
    }

    /// What was allocated so far, oldest first: the address and the size in
    /// bits that was asked for.
    pub closed spec fn allocations(&self) -> Seq<(u64, u64)> {
        self.sizes@
    }

    /// Whether something was allocated at `addr`.
    pub open spec fn is_allocated(&self, addr: u64) -> bool {
        exists|k: int| 0 <= k < self.allocations().len() && #[trigger] self.allocations()[k].0 == addr
    }

    /// What was allocated lies as the cursor left it.
    pub proof fn lemma_laid_out(&self)
        requires
            self.wf(),
        ensures
            laid_out(self.cursor(), self.allocations()),
    {
    }

    /// An allocator that has handed out nothing.
    pub fn new() -> (r: Alloc)
        ensures
            r.wf(),
            r.cursor() == ALLOC_START,
            r.allocations() == Seq::<(u64, u64)>::empty(),
    {
        Alloc { cursor: ALLOC_START, sizes: Vec::new() }
    }

    /// An allocator of its own in the same state.
    pub fn duplicate(&self) -> (r: Alloc)
        requires
            self.wf(),
        ensures
            r.wf(),
            r.cursor() == self.cursor(),
            r.allocations() == self.allocations(),
    {
        let mut sizes: Vec<(u64, u64)> = Vec::new();
        let mut k: usize = 0;
        while k < self.sizes.len()
            invariant
                0 <= k <= self.sizes@.len(),
                sizes@ == self.sizes@.subrange(0, k as int),
            decreases self.sizes@.len() - k,
        {
            sizes.push(self.sizes[k]);
            proof {
                assert(sizes@ =~= self.sizes@.subrange(0, k + 1));
            }
            k = k + 1;
        }
        proof {
            assert(sizes@ =~= self.sizes@);
        }
        Alloc { cursor: self.cursor, sizes }
    }

    /// Whether an allocation of `bits` bits still fits the address space.
    pub fn can_alloc(&self, bits: u64) -> (r: bool)
        ensures
            r == (self.cursor() + reserved_bytes(bits) <= u64::MAX),
    {
        let bytes = Self::bytes_for(bits);
        bytes <= u64::MAX - self.cursor
    }

    fn bytes_for(bits: u64) -> (r: u64)
        ensures
            r == reserved_bytes(bits),
            r % 8 == 0,
            r >= 8,
    {
        if bits == 0 {
            8
        } else {
            ((bits - 1) / 64 + 1) * 8
        }
    }

    /// Allocates `bits` bits and returns the address: the cursor, which
    /// then moves up by whole words.
    pub fn allocate(&mut self, bits: u64) -> (addr: u64)
        requires
            old(self).wf(),
            old(self).cursor() + reserved_bytes(bits) <= u64::MAX,
        ensures
            final(self).wf(),
            addr == old(self).cursor(),
            addr % 8 == 0,
            final(self).cursor() == old(self).cursor() + reserved_bytes(bits),
            final(self).allocations() == old(self).allocations().push((addr, bits)),
            !old(self).is_allocated(addr),
            laid_out(final(self).cursor(), final(self).allocations()),
    {
        let bytes = Self::bytes_for(bits);
        let addr = self.cursor;
        let ghost before = self.sizes@;
        self.sizes.push((addr, bits));
        self.cursor = addr + bytes;
        proof {
            assert forall|k: int| 0 <= k < self.sizes@.len() implies {
                &&& (#[trigger] self.sizes@[k]).0 % 8 == 0
                &&& self.sizes@[k].0 >= ALLOC_START
                &&& self.sizes@[k].0 + reserved_bytes(self.sizes@[k].1) <= self.cursor
            } by {
                if k < before.len() {
                    assert(self.sizes@[k] == before[k]);
                }
            }
            assert forall|i: int, j: int| 0 <= i < j < self.sizes@.len() implies (
            #[trigger] self.sizes@[i]).0 + reserved_bytes(self.sizes@[i].1) <= (
            #[trigger] self.sizes@[j]).0 by {
                assert(self.sizes@[i] == before[i]);
                if j < before.len() {
                    assert(self.sizes@[j] == before[j]);
                }
            }
            assert forall|k: int| 0 <= k < before.len() implies (#[trigger] before[k]).0
                != addr by {}
        }
        addr
    }

    /// The size in bits of the allocation at `addr`, or nothing where
    /// `addr` is not an address that `allocate` returned.
    pub fn get_allocation_size(&self, addr: u64) -> (r: Option<u64>)
        ensures
            match r {
                Some(bits) => self.allocations().contains((addr, bits)),
                None => !self.is_allocated(addr),
            },
    {
        let mut k: usize = 0;
        while k < self.sizes.len()
            invariant
                0 <= k <= self.sizes@.len(),
                forall|m: int| 0 <= m < k ==> (#[trigger] self.sizes@[m]).0 != addr,
            decreases self.sizes@.len() - k,
        {
            if self.sizes[k].0 == addr {
                assert(self.sizes@[k as int] == (addr, self.sizes@[k as int].1));
                return Some(self.sizes[k].1);
            }
            k = k + 1;
        }
        None
    }
}

/// Addresses that the allocator returned are pairwise distinct, and what was
/// reserved at an earlier one ends before the later one begins.
pub proof fn lemma_addresses_distinct(a: Alloc, i: int, j: int)
    requires
        a.wf(),
        0 <= i < j < a.allocations().len(),
    ensures
        a.allocations()[i].0 + reserved_bytes(a.allocations()[i].1) <= a.allocations()[j].0,
        a.allocations()[i].0 != a.allocations()[j].0,
{
}

} // verus!
