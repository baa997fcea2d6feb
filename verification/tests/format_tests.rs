use driver_doctor::entries::{
    drive_capacity_cell, drive_capacity_line, drive_icon_path, drive_root, drive_summary_label, DriveInfo,
};
use driver_doctor::format::format_size;
use driver_doctor::structure::folded_label;

fn float_size(bytes: u64) -> String {
    let units = ["B", "KB", "MB", "GB", "TB"];
    let mut size = bytes as f64;
    let mut unit = 0;
    while size >= 1024.0 && unit < units.len() - 1 {
        size /= 1024.0;
        unit += 1;
    }
    if unit == 0 {
        format!("{} {}", bytes, units[0])
    } else {
        format!("{:.2} {}", size, units[unit])
    }
}

#[test]
fn folded_label_includes_count_and_size() {
    assert_eq!(folded_label(123, 50 * 1024 * 1024), "...{123个|50.00 MB}");
}

#[test]
fn format_size_matches_float_formatting() {
    let mut samples: Vec<u64> = vec![0, 1, 512, 1023, 1024, 1536, 3200, 5120, 10240, 1048575, 1048576];
    for k in 0..5u32 {
        let base = 1024u64.pow(k);
        for m in [1u64, 3, 7, 13, 125, 1000, 1023, 3125, 4095, 12345] {
            samples.push(base.saturating_mul(m));
            samples.push(base.saturating_mul(m).saturating_add(base / 2));
            samples.push(base.saturating_mul(m).saturating_add(base / 8));
            samples.push(base.saturating_mul(m).saturating_add(base / 200));
        }
    }
    for b in 0..5000u64 {
        samples.push(b * 41);
    }
    for b in samples {
        assert_eq!(format_size(b), float_size(b), "bytes = {b}");
    }
}

#[test]
fn format_size_picks_units() {
    assert_eq!(format_size(0), "0 B");
    assert_eq!(format_size(1023), "1023 B");
    assert_eq!(format_size(1024), "1.00 KB");
    assert_eq!(format_size(1536), "1.50 KB");
    assert_eq!(format_size(5 * 1024 * 1024 * 1024), "5.00 GB");
    assert_eq!(format_size(3 * 1024u64.pow(4)), "3.00 TB");
    assert_eq!(format_size(2048 * 1024u64.pow(4)), "2048.00 TB");
}

#[test]
fn drive_summary_label_merges_capacity_free_and_used_percent() {
    let drive = DriveInfo {
        letter: "C:".into(),
        path: r"C:\".into(),
        total_bytes: 100,
        free_bytes: 25,
    };

    assert_eq!(
        drive_summary_label(&drive),
        "本地磁盘 (C:)  容量 100 B  可用 25 B  (75% 已用)"
    );
}

#[test]
fn drive_home_capacity_cell_uses_used_over_total() {
    let drive = DriveInfo {
        letter: "C:".into(),
        path: r"C:\".into(),
        total_bytes: 100,
        free_bytes: 25,
    };
    let entry = drive.to_entry();

    assert_eq!(entry.size, 75);
    assert_eq!(entry.allocated, 100);
    assert_eq!(drive_capacity_cell(&entry), "75 B/100 B");
}

#[test]
fn drive_icon_path_adds_root() {
    assert_eq!(drive_icon_path("C:"), r"C:\");
    assert_eq!(drive_icon_path("D"), r"D:\");
}

#[test]
fn used_percent_rounds_to_nearest_whole_percent() {
    let cases = [(100u64, 25u64, "75"), (3, 2, "33"), (3, 1, "67"), (0, 0, "0"), (8, 7, "12"), (40, 17, "58")];
    for (total, free, pct) in cases {
        let drive = DriveInfo { letter: "D:".into(), path: r"D:\".into(), total_bytes: total, free_bytes: free };
        let label = drive_summary_label(&drive);
        assert!(label.ends_with(&format!("({}% 已用)", pct)), "{label}");
    }
}

#[test]
fn drive_card_line_and_drive_roots() {
    let drive = DriveInfo { letter: "D:".into(), path: r"D:\".into(), total_bytes: 2048, free_bytes: 1024 };
    assert_eq!(drive_capacity_line(&drive), "容量 2.00 KB  可用 1.00 KB  (50% 已用)");
    assert_eq!(drive_root(r"D:\Games\x"), r"D:\");
    assert_eq!(drive_root("e:"), r"e:\");
    assert_eq!(drive_root(r"\\server\share"), r"C:\");
    assert_eq!(drive_root("é:"), r"C:\");
    assert_eq!(drive_root(""), r"C:\");
}
