use driver_doctor::report::{
    append_skipped_health_check_scope, cleanup_bat_actions, health_check_deep_scan_status,
    health_check_report_status, health_check_scan_status, sanitize_bat_name, split_health_report,
    HEALTH_CHECK_LABEL,
};

#[test]
fn health_check_label_does_not_use_emoji_glyph() {
    assert_eq!(HEALTH_CHECK_LABEL, "健康检查");
    assert!(!HEALTH_CHECK_LABEL.contains('🩺'));
}

#[test]
fn health_check_status_text_is_readable_chinese() {
    assert_eq!(
        health_check_scan_status("C:"),
        "正在扫描 C:，完成后生成健康检查报告..."
    );
    assert_eq!(
        health_check_report_status("C:"),
        "正在基于 C: 扫描结果生成健康检查报告..."
    );
    assert!(!health_check_scan_status("C:").contains("姝"));
    assert!(!health_check_report_status("C:").contains("濮"));
}

#[test]
fn health_report_is_split_between_analysis_and_cleanup_tabs() {
    let report =
        "## 占用报告\nUsers 很大\n\n## 清理意见报告\n清理 Users 缓存\n\n## 执行优先级\n先迁移";
    let split = split_health_report(report);

    assert!(split.analysis.contains("## 占用报告"));
    assert!(!split.analysis.contains("清理 Users 缓存"));
    assert!(split.cleanup.contains("## 清理意见报告"));
    assert!(split.cleanup.contains("## 执行优先级"));
}

#[test]
fn health_report_split_accepts_plain_cleanup_marker() {
    let report = "Usage report\nUsers large\n\nCleanup\nMove caches\n\nPriority\nMove first";
    let split = split_health_report(report);

    assert!(split.analysis.contains("Usage report"));
    assert!(!split.analysis.contains("Move caches"));
    assert!(split.cleanup.contains("Cleanup"));
}

#[test]
fn cleanup_bat_actions_extract_paths_from_table_rows() {
    let plan = "| C:\\Users\\Admin\\AppData\\Local\\Temp | 5 GB | 可清理 |\n| C:\\Program Files\\Docker | 3 GB | 设置迁移 |";
    let actions = cleanup_bat_actions(plan);

    assert_eq!(actions.len(), 2);
    assert_eq!(
        actions[0].path.as_deref(),
        Some(r"C:\Users\Admin\AppData\Local\Temp")
    );
    assert!(actions[0]
        .script
        .contains(r#"set "TARGET=C:\Users\Admin\AppData\Local\Temp""#));
}

#[test]
fn skipped_health_check_scope_is_recorded_for_ai_context() {
    let mut rag = String::from("root");

    append_skipped_health_check_scope(
        &mut rag,
        2,
        r"C:\System Volume Information",
        "access denied: \"os error 5\"",
    );

    assert!(rag.contains("skipped_child_scope round=2"));
    assert!(rag.contains(r#"path="C:\System Volume Information""#));
    assert!(rag.contains("access denied: 'os error 5'"));
}

#[test]
fn health_check_deep_scan_progress_is_visible_and_logged() {
    let status = health_check_deep_scan_status(2, 3, 6, r"C:\Users");

    assert!(status.contains("第 3/6 个"));
    assert!(status.contains("第 2 轮"));
    assert!(status.contains(r"C:\Users"));
}

#[test]
fn safe_bat_names_are_short_plain_and_stable() {
    let long = sanitize_bat_name("清理 AppData/Local Temp-files_2024 and a very long tail of words");
    assert_eq!(long, "AppDataLocalTemp-files_2024andav");
    assert_eq!(long.len(), 32);
    assert_eq!(sanitize_bat_name(&long), long);
    assert_eq!(sanitize_bat_name("临时文件"), "plan");
    assert_eq!(sanitize_bat_name("plan"), "plan");
}
