use clawsec_core::memory::{GarbageCollector, MemoryLedger, MemoryRegion, StackFrame, MEMORY_LIMIT_BYTES};

#[test]
fn regions_are_counted_against_the_budget() {
    let mut ledger = MemoryLedger::new();
    let mut a = MemoryRegion::new(&mut ledger, 1000, 1).unwrap();
    assert_eq!(ledger.allocated(), 1000);
    assert!(MemoryRegion::new(&mut ledger, MEMORY_LIMIT_BYTES, 2).is_none());
    assert!(a.resize(&mut ledger, 400));
    assert_eq!(ledger.allocated(), 400);
    assert!(!a.resize(&mut ledger, MEMORY_LIMIT_BYTES + 1));
    assert_eq!(ledger.allocated(), 400);
    a.release(&mut ledger);
    assert_eq!(ledger.allocated(), 0);
}

#[test]
fn collection_frees_unlocked_regions() {
    let mut ledger = MemoryLedger::new();
    let mut regions = Vec::new();
    for s in [10usize, 20, 30] {
        regions.push(MemoryRegion::new(&mut ledger, s, 7).unwrap());
    }
    regions[1].lock();
    regions[1].protect(true);
    let mut gc = GarbageCollector::new();
    gc.collect(&mut regions, &mut ledger);
    // Locked regions are collected; the others stay.
    assert_eq!(regions.len(), 2);
    assert_eq!(ledger.allocated(), 40);
    assert!(gc.force_compact());
    StackFrame::push(3);
    assert_eq!(StackFrame::pop(), 0);
}
