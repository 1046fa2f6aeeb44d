//! Accounting of guarded memory regions against a fixed budget.
use vstd::prelude::*;

verus! {

/// The budget of all regions together, in bytes (512 MiB).
pub const MEMORY_LIMIT_BYTES: usize = 536870912;

/// Placeholder address of a region.
pub const REGION_BASE_ADDR: usize = 0xDEADBEEF;

/// Read and write bits of a fresh region.
pub const READ_WRITE: u8 = 0b110;

/// The write bit of a region's permissions.
pub const WRITE_BIT: u8 = 0b010;

/// Bytes held by all live regions; every region's size is counted here
/// from its creation until it is released.
pub struct MemoryLedger {
    allocated: usize,
}

impl MemoryLedger {
    pub closed spec fn allocated_spec(&self) -> nat {
        self.allocated as nat
    }

    pub open spec fn wf(&self) -> bool {
        self.allocated_spec() <= MEMORY_LIMIT_BYTES
    }

    pub fn new() -> (r: MemoryLedger)
        ensures
            r.wf(),
            r.allocated_spec() == 0,
    {
        MemoryLedger { allocated: 0 }
    }

    pub fn allocated(&self) -> (r: usize)
        ensures
            r == self.allocated_spec(),
    {
        self.allocated
    }
}

pub struct MemoryRegion {
    start_addr: usize,
    size: usize,
    permissions: u8,
    owner_pid: u32,
    is_locked: bool,
}

pub ghost struct RegionView {
    pub start_addr: usize,
    pub size: usize,
    pub permissions: u8,
    pub owner_pid: u32,
    pub is_locked: bool,
}

impl View for MemoryRegion {
    type V = RegionView;

    closed spec fn view(&self) -> RegionView {
        RegionView {
            start_addr: self.start_addr,
            size: self.size,
            permissions: self.permissions,
            owner_pid: self.owner_pid,
            is_locked: self.is_locked,
        }
    }
}

/// Total size of the regions in `s`.
pub open spec fn bytes_of(s: Seq<RegionView>) -> nat
    decreases s.len(),
{
    if s.len() == 0 { 0 } else { bytes_of(s.drop_last()) + s.last().size as nat }
}

proof fn lemma_bytes_concat(a: Seq<RegionView>, b: Seq<RegionView>)
    ensures
        bytes_of(a + b) == bytes_of(a) + bytes_of(b),
    decreases b.len(),
{
    if b.len() > 0 {
        lemma_bytes_concat(a, b.drop_last());
        assert((a + b).drop_last() =~= a + b.drop_last());
    } else {
        assert(a + b =~= a);
    }
}

/// The regions a collection keeps: those that are not locked.
pub open spec fn unlocked() -> spec_fn(RegionView) -> bool {
    |r: RegionView| !r.is_locked
}

impl MemoryRegion {
    /// A read-write region of `size` bytes for process `pid`, counted in
    /// `ledger`; refused (`None`) when it would take the ledger over budget.
    pub fn new(ledger: &mut MemoryLedger, size: usize, pid: u32) -> (r: Option<MemoryRegion>)
        requires
            old(ledger).wf(),
        ensures
            final(ledger).wf(),
            old(ledger).allocated_spec() + size > MEMORY_LIMIT_BYTES ==> r is None && *final(ledger) == *old(ledger),
            old(ledger).allocated_spec() + size <= MEMORY_LIMIT_BYTES ==> (r matches Some(m) && m@ == (RegionView {
                start_addr: REGION_BASE_ADDR,
                size,
                permissions: READ_WRITE,
                owner_pid: pid,
                is_locked: false,
            }) && final(ledger).allocated_spec() == old(ledger).allocated_spec() + size),
    {
        if size > MEMORY_LIMIT_BYTES - ledger.allocated {
            return None;
        }
        ledger.allocated = ledger.allocated + size;
        Some(MemoryRegion { start_addr: REGION_BASE_ADDR, size, permissions: READ_WRITE, owner_pid: pid, is_locked: false })
    }

    /// Changes the region's size to `new_size`, adjusting `ledger`; refused
    /// (`false`) when growing would take the ledger over budget.
    pub fn resize(&mut self, ledger: &mut MemoryLedger, new_size: usize) -> (r: bool)
        requires
            old(ledger).wf(),
            old(self)@.size <= old(ledger).allocated_spec(),
        ensures
            final(ledger).wf(),
            r == (new_size <= old(self)@.size || old(ledger).allocated_spec() + (new_size - old(self)@.size) <= MEMORY_LIMIT_BYTES),
            r ==> final(self)@ == (RegionView { size: new_size, ..old(self)@ })
                && final(ledger).allocated_spec() == old(ledger).allocated_spec() - old(self)@.size + new_size,
            !r ==> final(self)@ == old(self)@ && *final(ledger) == *old(ledger),
    {
        if new_size > self.size {
            if new_size - self.size > MEMORY_LIMIT_BYTES - ledger.allocated {
                return false;
            }
            ledger.allocated = ledger.allocated + (new_size - self.size);
        } else {
            ledger.allocated = ledger.allocated - (self.size - new_size);
        }
        self.size = new_size;
        true
    }

    pub fn lock(&mut self)
        ensures
            final(self)@ == (RegionView { is_locked: true, ..old(self)@ }),
    {
        self.is_locked = true;
    }

    pub fn unlock(&mut self)
        ensures
            final(self)@ == (RegionView { is_locked: false, ..old(self)@ }),
    {
        self.is_locked = false;
    }

    /// Clears the write bit for a read-only region, sets it otherwise.
    pub fn protect(&mut self, readonly: bool)
        ensures
            readonly ==> final(self)@ == (RegionView { permissions: old(self)@.permissions & !WRITE_BIT, ..old(self)@ }),
            !readonly ==> final(self)@ == (RegionView { permissions: old(self)@.permissions | WRITE_BIT, ..old(self)@ }),
    {
        if readonly {
            self.permissions = self.permissions & !WRITE_BIT;
        } else {
            self.permissions = self.permissions | WRITE_BIT;
        }
    }

    /// Ends the region, returning its bytes to `ledger`.
    pub fn release(self, ledger: &mut MemoryLedger)
        requires
            old(ledger).wf(),
            self@.size <= old(ledger).allocated_spec(),
        ensures
            final(ledger).wf(),
            final(ledger).allocated_spec() == old(ledger).allocated_spec() - self@.size,
    {
        ledger.allocated = ledger.allocated - self.size;
    }
}

/// Default collection threshold, in bytes (1 MiB).
pub const GC_THRESHOLD_BYTES: usize = 1048576;

pub struct GarbageCollector {
    cycles: u64,
    threshold: usize,
}

impl GarbageCollector {
    pub closed spec fn cycles_spec(&self) -> u64 {
        self.cycles
    }

    /// The collection threshold, in bytes.
    pub closed spec fn threshold_spec(&self) -> usize {
        self.threshold
    }

    pub fn new() -> (r: GarbageCollector)
        ensures
            r.cycles_spec() == 0,
            r.threshold_spec() == GC_THRESHOLD_BYTES,
    {
        GarbageCollector { cycles: 0, threshold: GC_THRESHOLD_BYTES }
    }

    /// One collection cycle: every locked region is released to `ledger` and
    /// dropped from `regions`; the unlocked ones stay, in order.
    pub fn collect(&mut self, regions: &mut Vec<MemoryRegion>, ledger: &mut MemoryLedger)
        requires
            old(ledger).wf(),
            bytes_of(old(regions)@.map_values(|r: MemoryRegion| r@)) <= old(ledger).allocated_spec(),
        ensures
            final(ledger).wf(),
            final(regions)@.map_values(|r: MemoryRegion| r@) == old(regions)@.map_values(|r: MemoryRegion| r@).filter(unlocked()),
            final(ledger).allocated_spec() == old(ledger).allocated_spec() - (bytes_of(old(regions)@.map_values(|r: MemoryRegion| r@))
                - bytes_of(final(regions)@.map_values(|r: MemoryRegion| r@))),
            final(self).threshold_spec() == old(self).threshold_spec(),
            final(self).cycles_spec() == if old(self).cycles_spec() < u64::MAX { old(self).cycles_spec() + 1 } else { u64::MAX as int },
    {
        if self.cycles < u64::MAX {
            self.cycles = self.cycles + 1;
        }
        let ghost pred = unlocked();
        let mut all: Vec<MemoryRegion> = Vec::new();
        std::mem::swap(&mut all, regions);
        let ghost orig = all@.map_values(|r: MemoryRegion| r@);
        let ghost start = ledger.allocated_spec();
        while all.len() > 0
            invariant
                regions@.map_values(|r: MemoryRegion| r@) + all@.map_values(|r: MemoryRegion| r@).filter(pred) == orig.filter(pred),
                bytes_of(regions@.map_values(|r: MemoryRegion| r@)) + bytes_of(all@.map_values(|r: MemoryRegion| r@))
                    + (start - ledger.allocated_spec()) == bytes_of(orig),
                ledger.allocated_spec() <= start,
                bytes_of(orig) <= start,
                ledger.wf(),
                pred == unlocked(),
            decreases all@.len(),
        {
            let ghost kept = regions@.map_values(|r: MemoryRegion| r@);
            let ghost rest = all@.map_values(|r: MemoryRegion| r@);
            let m = all.remove(0);
            let ghost tail = all@.map_values(|r: MemoryRegion| r@);
            assert(rest =~= seq![m@] + tail);
            proof {
                tail.lemma_filter_prepend(m@, pred);
                lemma_bytes_concat(seq![m@], tail);
                assert(bytes_of(seq![m@]) == m@.size) by {
                    assert(seq![m@].drop_last() =~= Seq::<RegionView>::empty());
                    assert(bytes_of(Seq::<RegionView>::empty()) == 0);
                    assert(seq![m@].last() == m@);
                }
            }
            if !m.is_locked {
                regions.push(m);
                assert(regions@.map_values(|r: MemoryRegion| r@) =~= kept.push(m@));
                proof { lemma_bytes_concat(kept, seq![m@]); assert(kept + seq![m@] =~= kept.push(m@)); }
                assert(kept.push(m@) + tail.filter(pred) =~= kept + (seq![m@] + tail.filter(pred)));
            } else {
                m.release(ledger);
                assert(kept + tail.filter(pred) =~= kept + (Seq::<RegionView>::empty() + tail.filter(pred)));
            }
        }
        assert(all@.map_values(|r: MemoryRegion| r@) =~= Seq::<RegionView>::empty());
        assert(regions@.map_values(|r: MemoryRegion| r@) =~= regions@.map_values(|r: MemoryRegion| r@) + Seq::<RegionView>::empty());
    }

    /// Compaction is not needed by this allocator; it always succeeds.
    pub fn force_compact(&self) -> (r: bool)
        ensures
            r,
    {
        true
    }
}


/// A frame of the guarded stack. Values are not kept: pushing stores
/// nothing and popping yields zero.
pub struct StackFrame {
    depth: usize,
    return_addr: usize,
    locals: Vec<u8>,
}

impl StackFrame {
    pub fn push(val: u8) {
    }

    pub fn pop() -> (r: u8)
        ensures
            r == 0,
    {
        0
    }
}

} // verus!
