use driver_doctor::entries::Share;
use driver_doctor::scan::{
    allocated_file_size, build_node, check_drives_fit, drive_folder_name, quick_list_directory,
    scan_all_drives, scan_directory, scan_directory_with_tree, should_report, stats_from_len,
    walked_totals, FolderScan, Found, Listed, Walked,
};

fn file(name: &str, path: &str, len: u64) -> Walked {
    Walked { name: name.into(), path: path.into(), found: Found::File { len } }
}

fn dir(name: &str, path: &str, children: Vec<Walked>) -> Walked {
    Walked { name: name.into(), path: path.into(), found: Found::Dir { children } }
}

#[test]
fn scan_tree_result_exposes_nested_entries() {
    let root_path = "/tmp/driver_doctor_scan_tree_test";
    let cache = file("cache.bin", "/tmp/driver_doctor_scan_tree_test/Users/Admin/AppData/cache.bin", 16);
    let appdata = dir("AppData", "/tmp/driver_doctor_scan_tree_test/Users/Admin/AppData", vec![cache]);
    let admin = dir("Admin", "/tmp/driver_doctor_scan_tree_test/Users/Admin", vec![appdata]);
    let users = dir("Users", "/tmp/driver_doctor_scan_tree_test/Users", vec![admin]);
    let root = dir("driver_doctor_scan_tree_test", root_path, vec![users]);

    let result = scan_directory_with_tree(root_path, true, &root, 4096, false).unwrap();

    let tree = result.tree.unwrap();
    assert!(result.entries.iter().any(|entry| entry.name == "Users"));
    let users = tree.children.iter().find(|node| node.entry.name == "Users").unwrap();
    let admin = users.children.iter().find(|node| node.entry.name == "Admin").unwrap();
    assert!(admin.children.iter().any(|node| node.entry.name == "AppData"));
}

#[test]
fn allocated_size_rounds_up_to_clusters() {
    assert_eq!(allocated_file_size(0, 4096), 0);
    assert_eq!(allocated_file_size(1, 4096), 4096);
    assert_eq!(allocated_file_size(4096, 4096), 4096);
    assert_eq!(allocated_file_size(4097, 4096), 8192);
    assert_eq!(allocated_file_size(5, 0), 5);
    let s = stats_from_len(10, 4096, false);
    assert_eq!((s.size, s.allocated, s.file_count), (10, 4096, 1));
    let d = stats_from_len(10, 4096, true);
    assert_eq!((d.size, d.allocated, d.file_count), (10, 0, 0));
}

#[test]
fn folders_sum_their_items_and_sort_them_largest_first() {
    let tree = dir(
        "root",
        "R",
        vec![
            file("a", "R/a", 10),
            dir("d", "R/d", vec![file("x", "R/d/x", 100), dir("e", "R/d/e", Vec::new())]),
            file("b", "R/b", 10),
            Walked { name: "gone".into(), path: "R/gone".into(), found: Found::Empty { is_dir: true } },
        ],
    );
    assert_eq!(walked_totals(&tree, 4096), Some((120, 3 * 4096, 3, 3)));
    let n = build_node(&tree, 4096);
    assert_eq!(n.entry.size, 120);
    assert_eq!(n.entry.allocated, 3 * 4096);
    assert_eq!(n.entry.file_count, 3);
    assert_eq!(n.entry.folder_count, 3);
    assert_eq!(n.entry.percent, Share { part: 0, whole: 0 });
    let names: Vec<&str> = n.children.iter().map(|c| c.entry.name.as_str()).collect();
    assert_eq!(names, ["d", "a", "b", "gone"]);
    assert_eq!(n.children[0].entry.percent, Share { part: 100, whole: 120 });
    assert_eq!(n.children[1].entry.percent, Share { part: 10, whole: 120 });
    assert_eq!(n.children[0].children[0].entry.percent, Share { part: 100, whole: 100 });
    assert!(n.children[3].entry.is_dir);
}

#[test]
fn scanning_reports_missing_and_cancelled_roots() {
    let root = file("f", "F", 7);
    assert_eq!(
        scan_directory_with_tree("X:\\nope", false, &root, 4096, false).err().unwrap(),
        "路径不存在: X:\\nope"
    );
    assert_eq!(scan_directory("F", true, &root, 4096, true).unwrap_err(), "扫描已取消");
    let listed = scan_directory("F", true, &root, 4096, false).unwrap();
    assert_eq!(listed.len(), 1);
    assert_eq!(listed[0].size, 7);
    assert!(!listed[0].is_dir);
}

#[test]
fn overflowing_totals_are_detected() {
    let tree = dir("r", "R", vec![file("a", "R/a", u64::MAX), file("b", "R/b", 1)]);
    assert_eq!(walked_totals(&tree, 0), None);
    assert_eq!(walked_totals(&file("a", "A", u64::MAX), 4096), None);
    assert_eq!(walked_totals(&file("a", "A", u64::MAX), 1), Some((u64::MAX, u64::MAX, 1, 0)));
}

#[test]
fn all_drives_list_keeps_the_largest_folders_with_their_shares() {
    assert_eq!(drive_folder_name("C:\\", "Users"), "[C:] Users");
    let tasks = vec![
        FolderScan { walked: file("[C:] a", "C:\\a", 10), cluster: 0 },
        FolderScan { walked: file("[C:] b", "C:\\b", 30), cluster: 0 },
        FolderScan { walked: file("[D:] c", "D:\\c", 20), cluster: 0 },
    ];
    assert!(check_drives_fit(&tasks, 2));
    let drives = vec!["C:\\".to_string(), "D:\\".to_string()];
    let listed = scan_all_drives(&drives, &tasks, 2).unwrap();
    let names: Vec<&str> = listed.iter().map(|e| e.name.as_str()).collect();
    assert_eq!(names, ["[C:] b", "[D:] c"]);
    assert_eq!(listed[0].percent, Share { part: 30, whole: 50 });
    assert_eq!(listed[1].percent, Share { part: 20, whole: 50 });
    assert_eq!(scan_all_drives(&Vec::new(), &tasks, 2).unwrap_err(), "未找到可用磁盘");
}

#[test]
fn quick_listing_sorts_by_lower_case_name() {
    let items = vec![
        Listed { name: "beta".into(), path: "x/beta".into(), is_dir: true },
        Listed { name: "Alpha".into(), path: "x/Alpha".into(), is_dir: false },
        Listed { name: "alpha".into(), path: "x/alpha".into(), is_dir: true },
    ];
    let listed = quick_list_directory("x", true, Ok(items)).unwrap();
    let names: Vec<&str> = listed.iter().map(|e| e.name.as_str()).collect();
    assert_eq!(names, ["Alpha", "alpha", "beta"]);
    assert_eq!(listed[0].size, 0);
    let mixed = vec![
        Listed { name: "Zeta".into(), path: "x/Zeta".into(), is_dir: true },
        Listed { name: "alpha".into(), path: "x/alpha".into(), is_dir: true },
    ];
    let listed = quick_list_directory("x", true, Ok(mixed)).unwrap();
    let names: Vec<&str> = listed.iter().map(|e| e.name.as_str()).collect();
    assert_eq!(names, ["alpha", "Zeta"]);
    assert_eq!(quick_list_directory("x", false, Ok(Vec::new())).unwrap_err(), "不是文件夹: x");
    assert_eq!(
        quick_list_directory("x", true, Err("denied".into())).unwrap_err(),
        "无法读取目录: denied"
    );
}

#[test]
fn progress_is_reported_first_periodically_and_on_time() {
    assert!(should_report(1, 0));
    assert!(!should_report(2, 10));
    assert!(should_report(2, 120));
    assert!(should_report(1600, 0));
}
