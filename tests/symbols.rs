use cargo_alloc_profile::symbols::{clean_symbol_name, extract_frames, SymbolInfo};

fn sym(name: &str, file: Option<&str>, line: Option<u32>) -> SymbolInfo {
    SymbolInfo {
        name: Some(name.to_string()),
        filename: file.map(|f| f.to_string()),
        lineno: line,
    }
}

#[test]
fn hash_suffix_is_removed() {
    assert_eq!(clean_symbol_name("app::work::h1a2b3c4d5e6f7a8b"), "app::work");
    assert_eq!(clean_symbol_name("app::work::hABCDEF09"), "app::work");
}

#[test]
fn non_hex_suffix_is_kept() {
    assert_eq!(clean_symbol_name("app::handler"), "app::handler");
    assert_eq!(clean_symbol_name("app::work::hxyz"), "app::work::hxyz");
}

#[test]
fn angle_brackets_are_replaced() {
    assert_eq!(
        clean_symbol_name("alloc::vec::Vec<T>::push::h0123"),
        "alloc::vec::Vec\u{2039}T\u{203a}::push"
    );
}

#[test]
fn leading_internal_frames_are_skipped() {
    let syms = vec![
        sym("backtrace::capture::trace", None, None),
        sym("cargo_alloc_profile::ProfilingAllocator::alloc", None, None),
        SymbolInfo { name: None, filename: None, lineno: None },
        sym("demo::build::h00ff", Some("src/demo.rs"), Some(12)),
        sym("alloc::vec::Vec<u8>::push", None, None),
        sym("demo::main", Some("src/main.rs"), None),
    ];
    let frames = extract_frames(&syms);
    assert_eq!(
        frames,
        vec![
            "demo::build (src/demo.rs:12)".to_string(),
            "alloc::vec::Vec\u{2039}u8\u{203a}::push".to_string(),
            "demo::main".to_string(),
        ]
    );
}

#[test]
fn frames_are_capped_at_ten() {
    let syms: Vec<SymbolInfo> =
        (0..15).map(|i| sym(&format!("user::f{}", i), Some("u.rs"), Some(i))).collect();
    let frames = extract_frames(&syms);
    assert_eq!(frames.len(), 10);
    assert_eq!(frames[0], "user::f0 (u.rs:0)");
    assert_eq!(frames[9], "user::f9 (u.rs:9)");
}

#[test]
fn only_internal_frames_give_no_frames() {
    let syms = vec![sym("alloc::alloc::alloc", None, None), sym("backtrace::trace", None, None)];
    assert!(extract_frames(&syms).is_empty());
}
