use cargo_alloc_profile::{AllocationProfiler, Backtrace, ProfileSnapshot};

fn frames(names: &[&str]) -> Vec<String> {
    names.iter().map(|s| s.to_string()).collect()
}

fn site_count_sum(s: &ProfileSnapshot) -> usize {
    s.allocation_sites.iter().map(|(_, site)| site.count).sum()
}

#[test]
fn new_profiler_is_disabled_and_empty() {
    let p = AllocationProfiler::new();
    assert!(!p.is_enabled());
    let s = p.get_snapshot();
    assert_eq!(s.total_allocations, 0);
    assert_eq!(s.total_deallocations, 0);
    assert_eq!(s.total_bytes_allocated, 0);
    assert_eq!(s.peak_memory, 0);
    assert_eq!(s.current_memory, 0);
    assert!(s.allocation_sites.is_empty());
}

#[test]
fn disabled_profiler_counts_nothing() {
    let mut p = AllocationProfiler::new();
    p.record_allocation_frames(64, frames(&["main (main.rs:3)"]));
    p.record_deallocation(64);
    p.record_reallocation_frames(8, 16, frames(&["main (main.rs:3)"]));
    let s = p.get_snapshot();
    assert_eq!(s.total_allocations, 0);
    assert_eq!(s.total_deallocations, 0);
    assert!(s.allocation_sites.is_empty());
}

#[test]
fn allocations_aggregate_per_signature() {
    let mut p = AllocationProfiler::new();
    p.enable();
    p.record_allocation_frames(10, frames(&["a::f (a.rs:1)", "main (main.rs:2)"]));
    p.record_allocation_frames(20, frames(&["a::f (a.rs:1)", "main (main.rs:2)"]));
    p.record_allocation_frames(5, frames(&["b::g (b.rs:7)"]));
    let s = p.get_snapshot();
    assert_eq!(s.total_allocations, 3);
    assert_eq!(s.total_bytes_allocated, 35);
    assert_eq!(s.allocation_sites.len(), 2);
    let (key, site) = &s.allocation_sites[0];
    assert_eq!(key, "a::f (a.rs:1)\nmain (main.rs:2)");
    assert_eq!(site.count, 2);
    assert_eq!(site.total_bytes, 30);
    assert_eq!(site.frames, frames(&["a::f (a.rs:1)", "main (main.rs:2)"]));
    assert_eq!(s.allocation_sites[1].0, "b::g (b.rs:7)");
    assert_eq!(s.allocation_sites[1].1.count, 1);
}

#[test]
fn site_counts_sum_to_total_allocations() {
    let mut p = AllocationProfiler::new();
    p.enable();
    for i in 0..25usize {
        let f = if i % 3 == 0 { "x (x.rs:1)" } else { "y (y.rs:2)" };
        p.record_allocation_frames(i, frames(&[f]));
    }
    p.record_allocation_frames(7, Vec::new());
    let s = p.get_snapshot();
    assert_eq!(s.total_allocations, 26);
    assert_eq!(site_count_sum(&s), s.total_allocations);
}

#[test]
fn peak_tracks_maximum_and_gauge_saturates() {
    let mut p = AllocationProfiler::new();
    p.enable();
    p.record_allocation_frames(100, frames(&["f"]));
    p.record_allocation_frames(50, frames(&["f"]));
    let s1 = p.get_snapshot();
    assert_eq!(s1.current_memory, 150);
    assert_eq!(s1.peak_memory, 150);
    p.record_deallocation(120);
    let s2 = p.get_snapshot();
    assert_eq!(s2.current_memory, 30);
    assert_eq!(s2.peak_memory, 150);
    p.record_deallocation(1000);
    let s3 = p.get_snapshot();
    assert_eq!(s3.current_memory, 0);
    assert_eq!(s3.peak_memory, 150);
    assert_eq!(s3.total_deallocations, 2);
    assert!(s3.peak_memory >= s3.current_memory);
}

#[test]
fn pausing_keeps_counters_and_resumes() {
    let mut p = AllocationProfiler::new();
    p.enable();
    p.record_allocation_frames(8, frames(&["f"]));
    p.disable();
    for _ in 0..10 {
        p.record_allocation_frames(8, frames(&["g"]));
        p.record_deallocation(8);
    }
    let paused = p.get_snapshot();
    assert_eq!(paused.total_allocations, 1);
    assert_eq!(paused.total_deallocations, 0);
    assert_eq!(paused.total_bytes_allocated, 8);
    p.enable();
    p.record_allocation_frames(8, frames(&["f"]));
    let resumed = p.get_snapshot();
    assert_eq!(resumed.total_allocations, 2);
    assert_eq!(resumed.allocation_sites.len(), 1);
    assert_eq!(resumed.allocation_sites[0].1.count, 2);
}

#[test]
fn resize_is_one_release_and_one_allocation() {
    let mut p = AllocationProfiler::new();
    p.enable();
    p.record_allocation_frames(16, frames(&["v (v.rs:1)"]));
    p.record_reallocation_frames(16, 64, frames(&["v (v.rs:1)"]));
    let s = p.get_snapshot();
    assert_eq!(s.total_allocations, 2);
    assert_eq!(s.total_deallocations, 1);
    assert_eq!(s.total_bytes_allocated, 80);
    assert_eq!(s.current_memory, 64);
    assert_eq!(s.peak_memory, 64);
}

#[test]
fn snapshot_is_independent_of_later_events() {
    let mut p = AllocationProfiler::new();
    p.enable();
    p.record_allocation_frames(4, frames(&["f"]));
    let before = p.get_snapshot();
    p.record_allocation_frames(4, frames(&["f"]));
    assert_eq!(before.total_allocations, 1);
    assert_eq!(before.allocation_sites[0].1.count, 1);
    assert_eq!(p.get_snapshot().allocation_sites[0].1.count, 2);
}

#[test]
fn captured_backtrace_is_recorded_while_enabled() {
    let mut p = AllocationProfiler::new();
    p.record_allocation(32, Backtrace::new_unresolved());
    assert_eq!(p.get_snapshot().total_allocations, 0);
    p.enable();
    p.record_allocation(32, Backtrace::new_unresolved());
    p.record_reallocation(32, 48, Backtrace::new_unresolved());
    let s = p.get_snapshot();
    assert_eq!(s.total_allocations, 2);
    assert_eq!(s.total_bytes_allocated, 80);
    assert_eq!(site_count_sum(&s), 2);
    for (_, site) in &s.allocation_sites {
        assert!(site.frames.len() <= 10);
    }
}
