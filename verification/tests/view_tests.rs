use driver_doctor::entries::{DriveInfo, ScanEntry, Share};
use driver_doctor::view::{
    ai_tab_for_target, bgra_to_rgba, directory_table_columns, format_count_cell,
    format_percent_cell, format_size_cell, header_label, navigate_up_action, AiPanelTab,
    AiTaskTarget, BrowserState, FileListRow, SortColumn, SortPhase, UpAction, ViewMode,
};

fn entry(name: &str, size: u64, files: u64, part: u64, whole: u64) -> ScanEntry {
    ScanEntry {
        name: name.into(),
        path: format!(r"C:\x\{name}"),
        is_dir: true,
        size,
        allocated: size,
        file_count: files,
        folder_count: 0,
        percent: Share { part, whole },
    }
}

fn browser(entries: Vec<ScanEntry>) -> BrowserState {
    BrowserState {
        view_mode: ViewMode::Directory,
        scanning: false,
        scan_path: r"C:\x".into(),
        entries,
        drives: Vec::new(),
        sort_col: None,
        sort_phase: None,
        expanded_folded: Vec::new(),
    }
}

fn names(rows: &[ScanEntry]) -> Vec<&str> {
    rows.iter().map(|e| e.name.as_str()).collect()
}

#[test]
fn directory_table_columns_use_compact_localized_layout() {
    let labels: Vec<&str> = directory_table_columns().iter().map(|(_, t)| *t).collect();
    assert_eq!(labels, ["名称", "占用", "占比", "文件"]);
    assert!(!labels.iter().any(|l| matches!(*l, "Modified" | "Accessed" | "Owner" | "文件夹")));
    assert_eq!(format_count_cell(true, 0), "待定");
}

#[test]
fn three_clicks_on_a_header_cycle_the_sort() {
    let mut b = browser(Vec::new());
    b.sort_by_column(SortColumn::Size);
    assert_eq!((b.sort_col, b.sort_phase), (Some(SortColumn::Size), Some(SortPhase::Asc)));
    b.sort_by_column(SortColumn::Size);
    assert_eq!((b.sort_col, b.sort_phase), (Some(SortColumn::Size), Some(SortPhase::Desc)));
    b.sort_by_column(SortColumn::Size);
    assert_eq!((b.sort_col, b.sort_phase), (None, None));
    b.sort_by_column(SortColumn::Size);
    b.sort_by_column(SortColumn::Name);
    assert_eq!((b.sort_col, b.sort_phase), (Some(SortColumn::Name), Some(SortPhase::Asc)));
}

#[test]
fn rows_sort_stably_by_each_column() {
    let rows = vec![
        entry("b", 10, 3, 1, 3),
        entry("a", 20, 1, 1, 2),
        entry("c", 10, 2, 2, 4),
    ];
    let mut b = browser(rows);
    assert_eq!(names(&b.display_rows()), ["b", "a", "c"]);
    b.sort_by_column(SortColumn::Name);
    assert_eq!(names(&b.display_rows()), ["a", "b", "c"]);
    b.sort_by_column(SortColumn::Name);
    assert_eq!(names(&b.display_rows()), ["c", "b", "a"]);
    b.sort_col = Some(SortColumn::Size);
    b.sort_phase = Some(SortPhase::Asc);
    assert_eq!(names(&b.display_rows()), ["b", "c", "a"]);
    b.sort_phase = Some(SortPhase::Desc);
    assert_eq!(names(&b.display_rows()), ["a", "b", "c"]);
    b.sort_col = Some(SortColumn::FileCount);
    b.sort_phase = Some(SortPhase::Asc);
    assert_eq!(names(&b.display_rows()), ["a", "c", "b"]);
    b.sort_col = Some(SortColumn::Percent);
    assert_eq!(names(&b.display_rows()), ["b", "a", "c"]);
}

#[test]
fn home_lists_the_drives() {
    let mut b = browser(vec![entry("x", 1, 1, 0, 0)]);
    b.view_mode = ViewMode::Home;
    b.drives = vec![DriveInfo { letter: "C:".into(), path: r"C:\".into(), total_bytes: 100, free_bytes: 25 }];
    let rows = b.display_rows();
    assert_eq!(names(&rows), ["本地磁盘 (C:)"]);
    assert_eq!(rows[0].size, 75);
    assert_eq!(b.folded_key(), "home");
    let table = b.file_list_rows(&rows, false);
    assert_eq!(table.len(), 1);
}

#[test]
fn long_lists_fold_their_tail_into_one_row() {
    let mut rows = vec![entry("huge", 900, 1, 0, 0)];
    rows.extend((0..24).map(|i| entry(&format!("t{i}"), 1, 1, 0, 0)));
    let mut b = browser(rows.clone());
    let table = b.file_list_rows(&rows, false);
    assert_eq!(table.len(), 21);
    match &table[20] {
        FileListRow::Folded { key, label, count, size } => {
            assert_eq!(key, r"dir:C:\x");
            assert_eq!(label, "...{5个|5 B}");
            assert_eq!((*count, *size), (5, 5));
        }
        _ => panic!("folded row"),
    }
    assert!(matches!(&table[0], FileListRow::Entry { source_index: 0, .. }));
    b.toggle_folded(&r"dir:C:\x".to_string());
    assert_eq!(b.expanded_folded, vec![r"dir:C:\x".to_string()]);
    let open = b.file_list_rows(&rows, false);
    assert_eq!(open.len(), 26);
    assert!(matches!(&open[25], FileListRow::Entry { source_index: 24, .. }));
    b.toggle_folded(&r"dir:C:\x".to_string());
    assert!(b.expanded_folded.is_empty());
    assert_eq!(b.file_list_rows(&rows, true).len(), 25);
}

#[test]
fn headers_cells_and_tabs() {
    assert_eq!(header_label(SortColumn::Size, Some(SortColumn::Size), Some(SortPhase::Asc), "占用"), "占用 ▲");
    assert_eq!(header_label(SortColumn::Size, Some(SortColumn::Size), Some(SortPhase::Desc), "占用"), "占用 ▼");
    assert_eq!(header_label(SortColumn::Name, Some(SortColumn::Size), Some(SortPhase::Desc), "名称"), "名称");
    assert_eq!(format_size_cell(true, 5), "计算中…");
    assert_eq!(format_size_cell(false, 2048), "2.00 KB");
    assert_eq!(format_count_cell(false, 12), "12");
    assert_eq!(format_percent_cell(false, Share { part: 1, whole: 3 }), "33.33%");
    assert_eq!(format_percent_cell(false, Share { part: 0, whole: 0 }), "0.00%");
    assert_eq!(format_percent_cell(true, Share { part: 1, whole: 3 }), "…");
    assert_eq!(ai_tab_for_target(AiTaskTarget::Cleanup), AiPanelTab::CleanupPlan);
    assert_eq!(ai_tab_for_target(AiTaskTarget::HealthCheck), AiPanelTab::FolderAnalysis);
}

#[test]
fn going_up_stops_at_drive_roots() {
    assert!(matches!(navigate_up_action(ViewMode::Directory, Some(r"C:\")), UpAction::Home));
    assert!(matches!(navigate_up_action(ViewMode::Directory, Some("")), UpAction::Home));
    assert!(matches!(navigate_up_action(ViewMode::Directory, None), UpAction::Home));
    assert!(matches!(navigate_up_action(ViewMode::FullScan, Some(r"C:\a")), UpAction::Home));
    assert!(matches!(navigate_up_action(ViewMode::Directory, Some(r"C:\a")), UpAction::Open(p) if p == r"C:\a"));
}

#[test]
fn icon_pixels_turn_from_bgra_to_rgba() {
    assert_eq!(bgra_to_rgba(vec![1, 2, 3, 4, 5, 6, 7, 8, 9, 10]), vec![3, 2, 1, 4, 7, 6, 5, 8, 9, 10]);
}

#[test]
fn clicking_a_folded_group_twice_leaves_the_same_groups_open() {
    let mut b = browser(Vec::new());
    b.expanded_folded = vec!["a".to_string(), "b".to_string()];
    b.toggle_folded(&"a".to_string());
    assert_eq!(b.expanded_folded, vec!["b".to_string()]);
    b.toggle_folded(&"a".to_string());
    assert_eq!(b.expanded_folded, vec!["b".to_string(), "a".to_string()]);
    b.toggle_folded(&"c".to_string());
    b.toggle_folded(&"c".to_string());
    assert_eq!(b.expanded_folded, vec!["b".to_string(), "a".to_string()]);
}

#[test]
fn going_home_and_entering_folders_reset_the_listing() {
    let mut b = browser(vec![entry("a", 1, 1, 1, 1)]);
    b.expanded_folded = vec!["dir:C:\\x".to_string()];
    b.sort_by_column(SortColumn::Name);
    b.enter_directory(r"C:\y".to_string(), vec![entry("b", 0, 0, 0, 0)]);
    assert_eq!(b.view_mode, ViewMode::Directory);
    assert_eq!(b.scan_path, r"C:\y");
    assert!(b.scanning && b.expanded_folded.is_empty());
    assert_eq!(names(&b.entries), ["b"]);
    assert_eq!(b.sort_col, Some(SortColumn::Name));
    b.enter_full_scan();
    assert_eq!(b.view_mode, ViewMode::FullScan);
    assert!(b.entries.is_empty());
    b.go_home(Vec::new());
    assert_eq!(b.view_mode, ViewMode::Home);
    assert!(b.scan_path.is_empty() && b.entries.is_empty());
}

#[test]
fn sorting_keeps_every_row_and_ties_keep_their_order() {
    let rows = vec![
        entry("p", 5, 0, 0, 0),
        entry("q", 9, 0, 0, 0),
        entry("r", 5, 0, 0, 0),
        entry("s", 1, 0, 0, 0),
    ];
    let mut b = browser(rows);
    b.sort_col = Some(SortColumn::Size);
    b.sort_phase = Some(SortPhase::Desc);
    assert_eq!(names(&b.display_rows()), ["q", "p", "r", "s"]);
    b.sort_phase = Some(SortPhase::Asc);
    let sorted = b.display_rows();
    assert_eq!(names(&sorted), ["s", "p", "r", "q"]);
    assert!(sorted.windows(2).all(|w| w[0].size <= w[1].size));
}
