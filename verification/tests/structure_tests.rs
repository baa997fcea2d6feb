use driver_doctor::entries::{ScanEntry, ScanNode, Share};
use driver_doctor::structure::{
    build_deep_structure_rag, check_tree_sums, compact_scan_entries, format_current_level_rag,
    format_diagnostic_tree_rag, format_scan_tree_diagnostic_rag, truncate_doc, DistributionKind,
    doc_cut_ok, current_level_rag_fits, diagnostic_rag_fits, scan_tree_rag_fits,
};

fn entry(name: &str, size: u64) -> ScanEntry {
    ScanEntry {
        name: name.into(),
        path: format!(r"C:\test\{name}"),
        is_dir: true,
        size,
        allocated: size,
        file_count: 1,
        folder_count: 0,
        percent: Share { part: 0, whole: 0 },
    }
}

fn node(name: &str, path: &str, size: u64, children: Vec<ScanNode>) -> ScanNode {
    ScanNode {
        entry: ScanEntry {
            name: name.into(),
            path: path.into(),
            is_dir: true,
            size,
            allocated: size,
            file_count: 3,
            folder_count: children.len() as u64,
            percent: Share { part: 100, whole: 100 },
        },
        children,
    }
}

#[test]
fn keeps_all_items_when_count_is_twenty_or_less() {
    let entries: Vec<ScanEntry> = (0..20).map(|i| entry(&format!("item-{i}"), 1024)).collect();

    let compacted = compact_scan_entries(&entries);

    assert_eq!(compacted.distribution, DistributionKind::Small);
    assert_eq!(compacted.visible.len(), 20);
    assert!(compacted.folded.is_empty());
}

#[test]
fn concentrated_data_keeps_top_twenty_and_folds_tail() {
    let mut entries = vec![entry("huge", 900)];
    entries.extend((0..24).map(|i| entry(&format!("tiny-{i}"), 1)));

    let compacted = compact_scan_entries(&entries);

    assert_eq!(compacted.distribution, DistributionKind::Concentrated);
    assert_eq!(compacted.visible.len(), 20);
    assert_eq!(compacted.folded.len(), 5);
    assert!(compacted.spread.cv_units() >= 15000);
    assert!(4 * compacted.spread.top20 >= 3 * compacted.spread.total as u128);
}

#[test]
fn dispersed_data_keeps_top_twenty_for_visual_brevity() {
    let entries: Vec<ScanEntry> = (0..25).map(|i| entry(&format!("even-{i}"), 10)).collect();

    let compacted = compact_scan_entries(&entries);

    assert_eq!(compacted.distribution, DistributionKind::Dispersed);
    assert_eq!(compacted.visible.len(), 20);
    assert_eq!(compacted.folded.len(), 5);
    assert!(compacted.spread.cv_units() < 10000);
}

#[test]
fn diagnostic_tree_rag_includes_folded_summary_and_metrics() {
    let mut entries = vec![entry("huge", 900)];
    entries.extend((0..24).map(|i| entry(&format!("tiny-{i}"), 1)));

    let rag = format_diagnostic_tree_rag(r"C:\", &entries, "unit_test");

    assert!(rag.contains("type: disk_diagnostic_tree"));
    assert!(rag.contains("coefficient_of_variation:"));
    assert!(rag.contains("top20_coverage:"));
    assert!(rag.contains("...{5个|5 B}"));
    assert!(rag.contains("folded_items:"));
}

#[test]
fn full_scan_tree_rag_includes_nested_scopes() {
    let mut leaf = node("Cache", r"C:\Users\Admin\AppData\Local\Cache", 60, Vec::new());
    leaf.entry.percent = Share { part: 60, whole: 100 };
    let appdata = node("AppData", r"C:\Users\Admin\AppData", 100, vec![leaf]);
    let users = node("Users", r"C:\Users", 100, vec![appdata]);
    let root = node(r"C:\", r"C:\", 100, vec![users]);
    assert!(check_tree_sums(&root));

    let rag = format_scan_tree_diagnostic_rag(&root, "unit_full_tree");

    assert!(rag.contains("source: \"single_recursive_scan_tree_cache\""));
    assert!(rag.contains(r#"path="C:\Users""#));
    assert!(rag.contains(r#"path="C:\Users\Admin\AppData""#));
    assert!(rag.contains(r#"C:\Users\Admin\AppData\Local\Cache"#));
}

#[test]
fn compacted_lists_split_the_entries_and_sum_the_folded() {
    let mut entries = vec![entry("huge", 900), entry("big", 60)];
    entries.extend((0..24).map(|i| entry(&format!("tiny-{i}"), 1)));
    let compacted = compact_scan_entries(&entries);
    assert_eq!(compacted.visible.len() + compacted.folded.len(), entries.len());
    assert_eq!(compacted.folded_size, compacted.folded.iter().map(|e| e.size).sum::<u64>());
    assert_eq!(compacted.spread.total, 984);
    assert_eq!(compacted.spread.count, 26);
    assert_eq!(compacted.spread.top20, 900 + 60 + 18);
}

#[test]
fn mixed_and_flat_data_are_told_apart() {
    // One entry of 50 and 24 of 5: cv about 1.30, the top 20 hold 145 of 170 bytes.
    let mut mixed = vec![entry("big", 50)];
    mixed.extend((0..24).map(|i| entry(&format!("s-{i}"), 5)));
    let compacted = compact_scan_entries(&mixed);
    assert_eq!(compacted.distribution, DistributionKind::Mixed);
    assert_eq!(compacted.visible.len(), 20);
    assert_eq!(compacted.folded.len(), 5);
    assert_eq!(compacted.folded_size, 25);
    // 21 entries of 10 and 4 of 5: cv about 0.20.
    let mut flat: Vec<ScanEntry> = (0..21).map(|i| entry(&format!("a-{i}"), 10)).collect();
    flat.extend((0..4).map(|i| entry(&format!("b-{i}"), 5)));
    assert_eq!(compact_scan_entries(&flat).distribution, DistributionKind::Dispersed);
    // All sizes 0: nothing to weigh, dispersed.
    let zeros: Vec<ScanEntry> = (0..25).map(|i| entry(&format!("z-{i}"), 0)).collect();
    let z = compact_scan_entries(&zeros);
    assert_eq!(z.distribution, DistributionKind::Dispersed);
    assert_eq!(z.spread.cv_units(), 0);
}

#[test]
fn coefficient_of_variation_is_exact_to_four_places() {
    // sizes 1 and 3: mean 2, deviation 1, cv 0.5.
    let compacted = compact_scan_entries(&vec![entry("a", 1), entry("b", 3)]);
    assert_eq!(compacted.spread.cv_units(), 5000);
    let rag = format_diagnostic_tree_rag("C:", &vec![entry("a", 1), entry("b", 3)], "m");
    assert!(rag.contains("coefficient_of_variation: 0.5000\n"));
    assert!(rag.contains("top20_coverage: 1.0000\n"));
    assert!(rag.contains("  percent_of_scope: 0.7500\n"));
}

#[test]
fn long_documents_are_cut_at_the_byte_limit() {
    let doc = "é".repeat(30000);
    let cut = truncate_doc(doc);
    assert!(cut.starts_with(&"é".repeat(24000)));
    assert!(cut.ends_with("\n\n...(文档已截断以适配模型上下文)"));
    assert_eq!(cut.len(), 48000 + "\n\n...(文档已截断以适配模型上下文)".len());
    assert_eq!(truncate_doc("short".to_string()), "short");
}

#[test]
fn current_level_snapshot_lists_rows_and_a_summary() {
    let mut a = entry("a|b", 1536);
    a.percent = Share { part: 1536, whole: 2048 };
    let mut b = entry("c", 512);
    b.is_dir = false;
    b.percent = Share { part: 512, whole: 2048 };
    let doc = format_current_level_rag(r"D:\x", &vec![a, b]);
    assert!(doc.contains("root: \"D:\\x\"\nchild_count: 2\naggregated_size: \"2.00 KB\""));
    assert!(doc.contains("| a\\|b | folder | 1.50 KB | 1.50 KB | 1 | 0 | 75.00% | C:\\test\\a|b |\n"));
    assert!(doc.contains("2. [文件] c — 512 B (25.00%)\n"));
}

#[test]
fn deep_structure_report_walks_the_largest_folders() {
    let mut file = node("big.bin", r"C:\r\a\big.bin", 30, Vec::new());
    file.entry.is_dir = false;
    let mut sub = node("sub", r"C:\r\a\sub", 10, Vec::new());
    sub.entry.percent = Share { part: 10, whole: 40 };
    let mut a = node("a", r"C:\r\a", 40, vec![file, sub]);
    a.entry.percent = Share { part: 40, whole: 40 };
    let root = node("r", r"C:\r", 40, vec![a]);
    let doc = build_deep_structure_rag(r"C:\r", true, Ok(root), 3, 10).unwrap();
    assert!(doc.contains("max_depth: 3\ntop_n_per_level: 10\n"));
    assert!(doc.contains("C:\\r/ [40 B]\n  a/ — 40 B (100.00%)\n    sub/ — 10 B (25.00%)\n    big.bin [file] — 30 B\n```\n"));
    assert_eq!(
        build_deep_structure_rag(r"C:\r", false, Err("x".into()), 3, 10).unwrap_err(),
        "只能对文件夹做深度结构分析"
    );
    assert_eq!(
        build_deep_structure_rag(r"C:\r", true, Err("扫描已取消".into()), 3, 10).unwrap_err(),
        "扫描已取消"
    );
}

#[test]
fn folding_keeps_every_entry_once() {
    let mut entries = vec![entry("huge", 900)];
    entries.extend((0..24).map(|i| entry(&format!("tiny-{i}"), i + 1)));
    let compacted = compact_scan_entries(&entries);
    assert_eq!(compacted.visible.len() + compacted.folded.len(), entries.len());
    let shown: u64 = compacted.visible.iter().map(|e| e.size).sum();
    let total: u64 = entries.iter().map(|e| e.size).sum();
    assert_eq!(shown + compacted.folded_size, total);
    let mut names: Vec<String> = compacted.visible.iter().chain(compacted.folded.iter()).map(|e| e.name.clone()).collect();
    names.sort();
    let mut all: Vec<String> = entries.iter().map(|e| e.name.clone()).collect();
    all.sort();
    assert_eq!(names, all);
}

#[test]
fn documents_are_cut_only_between_characters() {
    assert!(doc_cut_ok(&"é".repeat(30000)));
    let odd = format!("a{}", "é".repeat(30000));
    assert!(!doc_cut_ok(&odd));
    assert!(doc_cut_ok(&"é".repeat(24000)));
    assert!(doc_cut_ok(&format!("a{}", "é".repeat(23999))));
    let small = vec![entry("a", 1), entry("b", 3)];
    assert!(current_level_rag_fits("C:", &small));
    assert!(diagnostic_rag_fits("C:", &small, "m"));
    let one = vec![entry(&format!("a{}", "é".repeat(30000)), 5)];
    let two = vec![entry(&format!("aa{}", "é".repeat(30000)), 5)];
    let (fits_one, fits_two) = (current_level_rag_fits("C:", &one), current_level_rag_fits("C:", &two));
    assert!(fits_one != fits_two);
    let ok = if fits_one { &one } else { &two };
    let doc = driver_doctor::structure::format_current_level_rag("C:", ok);
    assert!(doc.ends_with("\n\n...(文档已截断以适配模型上下文)"));
    assert_eq!(doc.len(), 48000 + "\n\n...(文档已截断以适配模型上下文)".len());
    let leaf = ScanNode { entry: entry("x", 0), children: Vec::new() };
    assert!(scan_tree_rag_fits(&leaf, "m"));
}

#[test]
fn past_twenty_entries_exactly_the_twenty_largest_are_shown() {
    // Two entries hold well over 5% each; they are among the 20 largest anyway.
    let mut entries: Vec<ScanEntry> = (0..30).map(|i| entry(&format!("s-{i}"), 1 + i as u64)).collect();
    entries.push(entry("big-a", 5000));
    entries.push(entry("big-b", 3000));
    let compacted = compact_scan_entries(&entries);
    assert_eq!(compacted.visible.len(), 20);
    let min_visible = compacted.visible.iter().map(|e| e.size).min().unwrap();
    let max_folded = compacted.folded.iter().map(|e| e.size).max().unwrap();
    assert!(max_folded <= min_visible);
    assert!(compacted.visible.iter().any(|e| e.name == "big-a"));
    assert!(compacted.visible.iter().any(|e| e.name == "big-b"));
}
