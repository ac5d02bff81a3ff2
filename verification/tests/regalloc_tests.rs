//! Register allocation tests

use zkir_llvm::regalloc::{LinearScan, LiveInterval, VirtualReg};

#[test]
fn test_linear_scan() {
    let intervals = vec![
        LiveInterval::new(VirtualReg(0), 0, 10),
        LiveInterval::new(VirtualReg(1), 5, 15),
        LiveInterval::new(VirtualReg(2), 12, 20),
    ];

    let mut allocator = LinearScan::new(intervals);
    allocator.allocate().unwrap();

    assert!(allocator.get_assignment(VirtualReg(0)).is_some());
    assert!(allocator.get_assignment(VirtualReg(1)).is_some());
    assert!(allocator.get_assignment(VirtualReg(2)).is_some());
}

#[test]
fn test_linear_scan_basic() {
    let intervals = vec![
        LiveInterval::new(VirtualReg(0), 0, 10),
        LiveInterval::new(VirtualReg(1), 5, 15),
        LiveInterval::new(VirtualReg(2), 12, 20),
    ];

    let mut allocator = LinearScan::new(intervals);
    let result = allocator.allocate();

    assert!(result.is_ok(), "Allocation should succeed");

    // All virtual registers should get assignments
    assert!(allocator.get_assignment(VirtualReg(0)).is_some());
    assert!(allocator.get_assignment(VirtualReg(1)).is_some());
    assert!(allocator.get_assignment(VirtualReg(2)).is_some());
}

#[test]
fn test_live_interval_overlap() {
    let i1 = LiveInterval::new(VirtualReg(0), 0, 10);
    let i2 = LiveInterval::new(VirtualReg(1), 5, 15);
    let i3 = LiveInterval::new(VirtualReg(2), 20, 30);

    assert!(i1.overlaps(&i2), "i1 and i2 should overlap");
    assert!(i2.overlaps(&i1), "i2 and i1 should overlap");
    assert!(!i1.overlaps(&i3), "i1 and i3 should not overlap");
    assert!(!i3.overlaps(&i1), "i3 and i1 should not overlap");
}

#[test]
fn test_non_overlapping_intervals() {
    let intervals = vec![
        LiveInterval::new(VirtualReg(0), 0, 5),
        LiveInterval::new(VirtualReg(1), 6, 10),
        LiveInterval::new(VirtualReg(2), 11, 15),
    ];

    let mut allocator = LinearScan::new(intervals);
    let result = allocator.allocate();

    assert!(result.is_ok());

    // Non-overlapping intervals can reuse registers
    let r0 = allocator.get_assignment(VirtualReg(0)).unwrap();
    let r1 = allocator.get_assignment(VirtualReg(1)).unwrap();
    let r2 = allocator.get_assignment(VirtualReg(2)).unwrap();

    // They could potentially get the same physical register
    // (but that's implementation-dependent)
    assert!(r0 == r1 || r0 != r1); // Just checking they're valid
    let _ = r2;
}

#[test]
fn test_many_overlapping_intervals() {
    // Create many overlapping intervals to test spilling
    let mut intervals = Vec::new();
    for i in 0..30 {
        intervals.push(LiveInterval::new(VirtualReg(i), 0, 100));
    }

    let mut allocator = LinearScan::new(intervals);
    let result = allocator.allocate();

    // With only 20 allocatable registers, some should be spilled
    assert!(result.is_ok());

    let mut spilled_count = 0;
    for i in 0..30 {
        if allocator.is_spilled(VirtualReg(i)) {
            spilled_count += 1;
            assert!(allocator.get_spill_slot(VirtualReg(i)).is_some());
        }
    }

    // At least some should be spilled
    assert!(spilled_count >= 10, "Expected at least 10 spills, got {}", spilled_count);
}

#[test]
fn test_pool_exhaustion_exact_spills() {
    // Thirty simultaneously live scalars against a pool of twenty: exactly
    // ten spill, everything else holds a register, and no allocation fails.
    let mut intervals = Vec::new();
    for i in 0..30 {
        intervals.push(LiveInterval::new(VirtualReg(i), 0, 100));
    }

    let mut allocator = LinearScan::new(intervals);
    assert!(allocator.allocate().is_ok());

    let mut spilled = 0;
    let mut assigned = 0;
    for i in 0..30 {
        let has_reg = allocator.get_assignment(VirtualReg(i)).is_some();
        let has_slot = allocator.is_spilled(VirtualReg(i));
        assert!(has_reg != has_slot, "each vreg gets exactly one home");
        if has_slot {
            spilled += 1;
        } else {
            assigned += 1;
        }
    }
    assert_eq!(assigned, 20);
    assert_eq!(spilled, 10);
}

#[test]
fn test_overlapping_assignments_distinct() {
    // Overlapping intervals that both receive registers never share one.
    let mut intervals = Vec::new();
    for i in 0..10 {
        intervals.push(LiveInterval::new(VirtualReg(i), 0, 50));
    }
    let mut allocator = LinearScan::new(intervals);
    assert!(allocator.allocate().is_ok());

    for i in 0..10 {
        for j in 0..10 {
            if i != j {
                let ri = allocator.get_assignment(VirtualReg(i)).unwrap();
                let rj = allocator.get_assignment(VirtualReg(j)).unwrap();
                assert!(ri != rj, "overlapping intervals share a register");
            }
        }
    }
}

#[test]
fn test_spill_slots_distinct() {
    let mut intervals = Vec::new();
    for i in 0..25 {
        intervals.push(LiveInterval::new(VirtualReg(i), 0, 9));
    }
    let mut allocator = LinearScan::new(intervals);
    assert!(allocator.allocate().is_ok());

    let mut slots = Vec::new();
    for i in 0..25 {
        if let Some(slot) = allocator.get_spill_slot(VirtualReg(i)) {
            assert!(!slots.contains(&slot), "spill slots must be distinct");
            slots.push(slot);
        }
    }
    assert_eq!(slots.len(), 5);
}

#[test]
fn test_adjacent_intervals_do_not_overlap() {
    // Half-open semantics: an interval ending where another starts is
    // disjoint from it.
    let a = LiveInterval::new(VirtualReg(0), 0, 10);
    let b = LiveInterval::new(VirtualReg(1), 10, 20);
    assert!(!a.overlaps(&b));
    assert!(!b.overlaps(&a));
}
