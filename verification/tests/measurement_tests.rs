use memori::allocator::{AllocCounts, TrackingAllocator};
use memori::Measurement;

#[test]
fn measurement_net_bytes_is_alloc_minus_dealloc() {
    let m = Measurement::new(10, Some(20), None, 3, 100, 1, 40);
    assert_eq!(m.cycles, 10);
    assert_eq!(m.instructions, Some(20));
    assert_eq!(m.time_ns, None);
    assert_eq!(m.alloc_count, 3);
    assert_eq!(m.alloc_bytes, 100);
    assert_eq!(m.dealloc_count, 1);
    assert_eq!(m.dealloc_bytes, 40);
    assert_eq!(m.net_bytes, 60);
    assert_eq!(m.net_allocs(), 2);
}

#[test]
fn measurement_net_can_be_negative() {
    let m = Measurement::new(0, None, Some(5), 1, 8, 4, 64);
    assert_eq!(m.net_bytes, -56);
    assert_eq!(m.net_allocs(), -3);
}

#[test]
fn tracking_allocator_counts_each_request() {
    let mut t = TrackingAllocator::new();
    let start = t.counts();
    t.record_alloc(16);
    t.record_alloc(32);
    t.record_dealloc(16);
    let end = t.counts();
    assert_eq!(end.alloc_count, 2);
    assert_eq!(end.alloc_bytes, 48);
    assert_eq!(end.dealloc_count, 1);
    assert_eq!(end.dealloc_bytes, 16);
    let d = end.since(&start);
    assert_eq!((d.alloc_count, d.alloc_bytes, d.dealloc_count, d.dealloc_bytes), (2, 48, 1, 16));
    let mid = AllocCounts { alloc_count: 1, alloc_bytes: 16, dealloc_count: 0, dealloc_bytes: 0 };
    let d2 = end.since(&mid);
    assert_eq!((d2.alloc_count, d2.alloc_bytes, d2.dealloc_count, d2.dealloc_bytes), (1, 32, 1, 16));
    let z = AllocCounts::zero();
    assert_eq!((z.alloc_count, z.alloc_bytes, z.dealloc_count, z.dealloc_bytes), (0, 0, 0, 0));
}
