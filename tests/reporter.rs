use cargo_alloc_profile::reporter::{
    ComparisonEntry, GroupBy, ReportOptions, SiteChange, SiteGroup, SortBy,
};
use cargo_alloc_profile::{AllocationSite, ProfileSnapshot, Reporter};

fn site(count: usize, bytes: usize, frames: &[&str]) -> AllocationSite {
    AllocationSite {
        count,
        total_bytes: bytes,
        frames: frames.iter().map(|s| s.to_string()).collect(),
    }
}

fn snapshot(sites: Vec<AllocationSite>) -> ProfileSnapshot {
    let total: usize = sites.iter().map(|s| s.count).sum();
    let bytes: usize = sites.iter().map(|s| s.total_bytes).sum();
    ProfileSnapshot {
        total_allocations: total,
        total_deallocations: 0,
        total_bytes_allocated: bytes,
        peak_memory: bytes,
        current_memory: bytes,
        allocation_sites: sites.into_iter().map(|s| (s.frames.join("\n"), s)).collect(),
    }
}

fn names(groups: &[SiteGroup]) -> Vec<String> {
    groups.iter().map(|g| g.name.clone()).collect()
}

#[test]
fn function_module_and_file_keys() {
    let frame = "pkg::sub::f (file.ext:10)";
    assert_eq!(Reporter::extract_function_name(frame), "pkg::sub::f");
    assert_eq!(Reporter::extract_module_name(frame), "pkg::sub");
    assert_eq!(Reporter::extract_file_name(frame), "file.ext");
    assert_eq!(Reporter::extract_module_name("main"), "main");
    assert_eq!(Reporter::extract_module_name("a::b"), "a::b");
    assert_eq!(Reporter::extract_file_name("x::y (C:\\src\\lib.rs:27)"), "lib.rs");
    assert_eq!(Reporter::extract_file_name("x::y (/home/u/src/main.rs:3)"), "main.rs");
    assert_eq!(Reporter::extract_file_name("x::y"), "unknown");
}

#[test]
fn grouping_by_function_and_by_module_keeps_the_count() {
    let snap = snapshot(vec![site(4, 400, &["pkg::sub::f (file.ext:10)"])]);
    let by_fn = Reporter::prepare_sites(&snap, &ReportOptions::default());
    let opts = ReportOptions { group_by: GroupBy::Module, ..ReportOptions::default() };
    let by_mod = Reporter::prepare_sites(&snap, &opts);
    assert_eq!(names(&by_fn), vec!["pkg::sub::f"]);
    assert_eq!(names(&by_mod), vec!["pkg::sub"]);
    assert_eq!(by_fn[0].count, 4);
    assert_eq!(by_mod[0].count, 4);
    let opts = ReportOptions { group_by: GroupBy::File, ..ReportOptions::default() };
    assert_eq!(names(&Reporter::prepare_sites(&snap, &opts)), vec!["file.ext"]);
}

#[test]
fn min_count_keeps_only_frequent_sites() {
    let snap = snapshot(vec![site(5, 50, &["A (a.rs:1)"]), site(12, 120, &["B (b.rs:1)"])]);
    let opts = ReportOptions { min_count: Some(10), ..ReportOptions::default() };
    let groups = Reporter::prepare_sites(&snap, &opts);
    assert_eq!(names(&groups), vec!["B"]);
    assert_eq!(groups[0].count, 12);
}

#[test]
fn sites_sharing_a_key_are_summed() {
    let snap = snapshot(vec![
        site(2, 20, &["m::f (m.rs:1)", "main (main.rs:1)"]),
        site(3, 30, &["m::g (m.rs:9)"]),
        site(4, 40, &["m::f (m.rs:1)", "other (o.rs:5)"]),
        site(9, 90, &[]),
    ]);
    let groups = Reporter::prepare_sites(&snap, &ReportOptions::default());
    assert_eq!(names(&groups), vec!["m::f", "m::g"]);
    assert_eq!(groups[0].count, 6);
    assert_eq!(groups[0].total_bytes, 60);
    assert_eq!(groups[0].frames, vec!["m::f (m.rs:1)".to_string(), "main (main.rs:1)".to_string()]);
    let opts = ReportOptions { group_by: GroupBy::Module, ..ReportOptions::default() };
    let groups = Reporter::prepare_sites(&snap, &opts);
    assert_eq!(names(&groups), vec!["m::f", "m::g"]);
}

#[test]
fn filter_is_case_insensitive_substring() {
    let snap = snapshot(vec![
        site(1, 10, &["app::Worker::run (w.rs:1)"]),
        site(2, 20, &["app::idle (i.rs:1)"]),
    ]);
    let opts = ReportOptions { filter: Some("WORKER".to_string()), ..ReportOptions::default() };
    assert_eq!(names(&Reporter::prepare_sites(&snap, &opts)), vec!["app::Worker::run"]);
    let opts = ReportOptions { filter: Some("nothing".to_string()), ..ReportOptions::default() };
    assert!(Reporter::prepare_sites(&snap, &opts).is_empty());
}

#[test]
fn threshold_bytes_filters_small_sites() {
    let snap = snapshot(vec![site(1, 10, &["a (a.rs:1)"]), site(1, 5000, &["b (b.rs:1)"])]);
    let opts = ReportOptions { threshold_bytes: Some(1000), ..ReportOptions::default() };
    assert_eq!(names(&Reporter::prepare_sites(&snap, &opts)), vec!["b"]);
}

#[test]
fn sorting_and_limit() {
    let snap = snapshot(vec![
        site(3, 300, &["c (c.rs:1)"]),
        site(7, 100, &["a (a.rs:1)"]),
        site(3, 900, &["b (b.rs:1)"]),
        site(1, 50, &["d (d.rs:1)"]),
    ]);
    let by_count = Reporter::prepare_sites(&snap, &ReportOptions::default());
    assert_eq!(names(&by_count), vec!["a", "c", "b", "d"]);
    let opts = ReportOptions { sort_by: SortBy::Size, ..ReportOptions::default() };
    assert_eq!(names(&Reporter::prepare_sites(&snap, &opts)), vec!["b", "c", "a", "d"]);
    let opts = ReportOptions { sort_by: SortBy::Name, ..ReportOptions::default() };
    assert_eq!(names(&Reporter::prepare_sites(&snap, &opts)), vec!["a", "b", "c", "d"]);
    let opts = ReportOptions { limit: Some(2), ..ReportOptions::default() };
    assert_eq!(names(&Reporter::prepare_sites(&snap, &opts)), vec!["a", "c"]);
    let opts = ReportOptions { limit: Some(0), ..ReportOptions::default() };
    assert!(Reporter::prepare_sites(&snap, &opts).is_empty());
}

#[test]
fn rendering_twice_gives_identical_output() {
    let snap = snapshot(vec![
        site(2, 2048, &["x::a (x.rs:1)"]),
        site(2, 1024, &["x::b (x.rs:2)"]),
        site(2, 512, &["x::c (x.rs:3)"]),
    ]);
    let opts = ReportOptions { verbosity: 3, ..ReportOptions::default() };
    let first = Reporter::render_text(&Reporter::prepare_sites(&snap, &opts), 3);
    let second = Reporter::render_text(&Reporter::prepare_sites(&snap, &opts), 3);
    assert_eq!(first, second);
    assert_eq!(first[0], "x::a: 2 (2.00 KB) [x::a (x.rs:1)]");
    assert_eq!(first[1], "x::b: 2 (1.00 KB) [x::b (x.rs:2)]");
}

#[test]
fn text_lines_follow_verbosity() {
    let g = SiteGroup {
        name: "a::f".to_string(),
        count: 3,
        total_bytes: 1536,
        frames: vec!["a::f (a.rs:1)".to_string(), "main (m.rs:2)".to_string()],
    };
    let groups = vec![g];
    assert_eq!(Reporter::render_text(&groups, 0), vec!["a::f: 3"]);
    assert_eq!(Reporter::render_text(&groups, 1), vec!["a::f: 3 (1.50 KB)"]);
    assert_eq!(Reporter::render_text(&groups, 2), vec!["a::f: 3 (1.50 KB) [a::f (a.rs:1)]"]);
    assert_eq!(
        Reporter::render_text(&groups, 3),
        vec!["a::f: 3 (1.50 KB) [a::f (a.rs:1)]", "  \u{2514}\u{2500} main (m.rs:2)"]
    );
}

#[test]
fn long_stacks_show_five_frames_and_the_rest_counted() {
    let frames: Vec<String> = (0..8).map(|i| format!("f{}", i)).collect();
    let groups = vec![SiteGroup { name: "f0".to_string(), count: 1, total_bytes: 0, frames }];
    let lines = Reporter::render_text(&groups, 3);
    assert_eq!(
        lines,
        vec![
            "f0: 1 (0.00 KB) [f0]",
            "  \u{2514}\u{2500} f1",
            "     f2",
            "     f3",
            "     f4",
            "     f5",
            "     ... 2 more frames",
        ]
    );
}

#[test]
fn kilobytes_round_half_to_even() {
    let lines = |bytes: usize| {
        let g = SiteGroup { name: "k".to_string(), count: 1, total_bytes: bytes, frames: vec![] };
        Reporter::render_text(&vec![g], 1)[0].clone()
    };
    assert_eq!(lines(128), "k: 1 (0.12 KB)");
    assert_eq!(lines(384), "k: 1 (0.38 KB)");
    assert_eq!(lines(640), "k: 1 (0.62 KB)");
    assert_eq!(lines(1000), "k: 1 (0.98 KB)");
    assert_eq!(lines(10 * 1024 * 1024), "k: 1 (10240.00 KB)");
}

#[test]
fn empty_report_says_so() {
    assert_eq!(Reporter::render_text(&Vec::new(), 0), vec!["  No allocations recorded."]);
}

#[test]
fn structured_entry_fields_follow_verbosity() {
    let g = SiteGroup {
        name: "a::f".to_string(),
        count: 3,
        total_bytes: 1536,
        frames: vec!["a::f (a.rs:1)".to_string(), "main (m.rs:2)".to_string()],
    };
    let e0 = Reporter::structured_entry(&g, 0);
    assert_eq!(e0.function, "a::f");
    assert_eq!(e0.count, 3);
    assert_eq!(e0.total_bytes, None);
    assert_eq!(e0.location, None);
    assert!(e0.stack_trace.is_none());
    let e3 = Reporter::structured_entry(&g, 3);
    assert_eq!(e3.total_bytes, Some(1536));
    assert_eq!(e3.location, Some("a::f (a.rs:1)".to_string()));
    assert_eq!(e3.stack_trace, Some(g.frames.clone()));
}

#[test]
fn comparison_flags_changed_new_and_removed() {
    let baseline = snapshot(vec![site(10, 1024, &["X (x.rs:1)"]), site(3, 512, &["Y (y.rs:1)"])]);
    let current = snapshot(vec![site(15, 2048, &["X (x.rs:1)"]), site(2, 256, &["Z (z.rs:1)"])]);
    let entries = Reporter::compare_sites(&current, &baseline, &ReportOptions::default());
    assert_eq!(entries.len(), 3);
    assert_eq!(entries[0].name, "X");
    assert_eq!(
        entries[0].change,
        SiteChange::Changed {
            baseline_count: 10,
            current_count: 15,
            baseline_bytes: 1024,
            current_bytes: 2048
        }
    );
    assert_eq!(entries[1].name, "Z");
    assert_eq!(entries[1].change, SiteChange::Added { count: 2, total_bytes: 256 });
    assert_eq!(entries[2].name, "Y");
    assert_eq!(entries[2].change, SiteChange::Removed { count: 3, total_bytes: 512 });
    let lines = Reporter::render_comparison(&entries);
    assert_eq!(
        lines,
        vec![
            "X: 10 \u{2192} 15 +5 (+1.00 KB)",
            "Z: 2 [NEW] (0.25 KB)",
            "Y: 3 [REMOVED] (0.50 KB)",
        ]
    );
}

#[test]
fn comparison_deltas_down_and_unchanged() {
    let entries = vec![
        ComparisonEntry {
            name: "d".to_string(),
            change: SiteChange::Changed {
                baseline_count: 9,
                current_count: 4,
                baseline_bytes: 2048,
                current_bytes: 1024,
            },
        },
        ComparisonEntry {
            name: "s".to_string(),
            change: SiteChange::Changed {
                baseline_count: 4,
                current_count: 4,
                baseline_bytes: 100,
                current_bytes: 100,
            },
        },
    ];
    assert_eq!(
        Reporter::render_comparison(&entries),
        vec!["d: 9 \u{2192} 4 -5 (-1.00 KB)", "s: 4 \u{2192} 4 \u{b1}0 (\u{b1}0 KB)"]
    );
}
