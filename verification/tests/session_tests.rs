use driver_doctor::entries::{ScanEntry, Share};
use driver_doctor::scan::{ScanProgress, ScanResult};
use driver_doctor::session::{
    append_elapsed, cleanup_plan_refusal, connection_test_result, deep_analysis_refusal,
    deep_scan_status, folder_analysis_request, structure_analysis_refusal, AiMessage, AiNext,
    AiPanel, AnalysisRequest, ScanMessage, ScanSession, ScanStep,
};
use driver_doctor::view::{AiPanelTab, AiTaskTarget, ViewMode};

fn session() -> ScanSession {
    ScanSession { generation: 0, scanning: false, status: String::new(), scanned_files: 0, timed: false }
}

fn panel() -> AiPanel {
    AiPanel {
        generation: 0,
        loading: false,
        cancelled: false,
        timed: false,
        tab: AiPanelTab::FolderAnalysis,
        analysis_output: String::new(),
        cleanup_output: String::new(),
    }
}

fn entry(name: &str) -> ScanEntry {
    ScanEntry {
        name: name.into(),
        path: format!(r"C:\{name}"),
        is_dir: true,
        size: 1,
        allocated: 1,
        file_count: 1,
        folder_count: 0,
        percent: Share { part: 1, whole: 2 },
    }
}

#[test]
fn elapsed_line_is_added_only_when_timed() {
    assert_eq!(append_elapsed("done".into(), true, "1.5 秒"), "done\n\n---\n耗时: 1.5 秒");
    assert_eq!(append_elapsed("done".into(), false, "1.5 秒"), "done");
    assert_eq!(connection_test_result(Ok("pong".into()), true, "0.2 秒"), "连接成功: pong\n\n---\n耗时: 0.2 秒");
    assert_eq!(connection_test_result(Err("timeout".into()), false, ""), "连接失败: timeout");
}

#[test]
fn a_scan_reports_progress_and_its_end() {
    let mut s = session();
    s.start_directory(r"C:\Users", 7);
    assert_eq!(s.generation, 1);
    assert!(s.scanning && s.timed);
    assert_eq!(s.status, r"已进入 C:\Users，正在计算大小（7 项）...");
    let step = s.on_message(
        ScanMessage::Progress {
            generation: 1,
            progress: ScanProgress { scanned_files: 42, current_path: r"C:\Users\a".into() },
        },
        "0.1 秒",
    );
    assert!(matches!(step, ScanStep::Progressed));
    assert_eq!((s.scanned_files, s.status.as_str()), (42, r"C:\Users\a"));
    let result = ScanResult { entries: vec![entry("a"), entry("b")], tree: None };
    let step = s.on_message(ScanMessage::Done { generation: 1, result: Ok(result) }, "2.0 秒");
    match step {
        ScanStep::Finished { ok: true, result: Some(r) } => assert_eq!(r.entries.len(), 2),
        _ => panic!("finished"),
    }
    assert_eq!(s.status, "完成，共 2 项，耗时 2.0 秒");
    assert!(!s.timed);
    s.finish();
    assert!(!s.scanning);
}

#[test]
fn messages_of_an_earlier_scan_are_ignored() {
    let mut s = session();
    s.start_directory(r"C:\a", 1);
    s.start_full_scan();
    assert_eq!(s.generation, 2);
    assert_eq!(s.status, "正在全盘扫描各盘根目录...");
    let step = s.on_message(
        ScanMessage::Progress { generation: 1, progress: ScanProgress { scanned_files: 9, current_path: "old".into() } },
        "",
    );
    assert!(matches!(step, ScanStep::Ignored));
    let step = s.on_message(ScanMessage::Done { generation: 1, result: Err("boom".into()) }, "");
    assert!(matches!(step, ScanStep::Ignored));
    assert_eq!(s.status, "正在全盘扫描各盘根目录...");
    assert!(s.timed);
}

#[test]
fn a_failed_scan_shows_its_error_but_a_cancelled_one_keeps_the_line() {
    let mut s = session();
    s.start_directory(r"C:\a", 0);
    s.cancel();
    assert_eq!(s.status, "正在取消...");
    let step = s.on_message(ScanMessage::Done { generation: 1, result: Err("扫描已取消".into()) }, "1.0 秒");
    assert!(matches!(step, ScanStep::Finished { ok: false, result: None }));
    assert_eq!(s.status, "正在取消...");
    s.start_directory(r"C:\b", 0);
    s.on_message(ScanMessage::Done { generation: 2, result: Err("路径不存在".into()) }, "1.0 秒");
    assert_eq!(s.status, "路径不存在（耗时 1.0 秒）");
}

#[test]
fn ai_answers_go_to_the_tab_of_their_task() {
    let mut p = panel();
    let g = p.begin(AiTaskTarget::Cleanup, "生成中...".into());
    assert_eq!(g, 1);
    assert!(p.loading && p.timed && !p.cancelled);
    assert_eq!(p.cleanup_output, "生成中...");
    let next = p.on_message(
        AiMessage::Progress { generation: 1, target: AiTaskTarget::Cleanup, message: "第 1 步".into() },
        false,
        "",
    );
    assert!(matches!(next, AiNext::Continue));
    assert_eq!(p.cleanup_output, "第 1 步");
    let next = p.on_message(
        AiMessage::Done { generation: 1, target: AiTaskTarget::Cleanup, result: Ok("计划".into()) },
        false,
        "3.0 秒",
    );
    assert!(matches!(next, AiNext::Detach));
    assert!(!p.loading && !p.timed);
    assert_eq!(p.cleanup_output, "计划\n\n---\n耗时: 3.0 秒");
    assert_eq!(p.analysis_output, "");
}

#[test]
fn a_health_report_is_cut_into_both_tabs() {
    let mut p = panel();
    p.begin(AiTaskTarget::HealthCheck, "等待".into());
    let report = "## 占用报告\nC 盘很满\n\n## 清理意见报告\n删除缓存".to_string();
    p.on_message(AiMessage::Done { generation: 1, target: AiTaskTarget::HealthCheck, result: Ok(report) }, false, "1.0 秒");
    assert_eq!(p.analysis_output, "## 占用报告\nC 盘很满");
    assert_eq!(p.cleanup_output, "## 清理意见报告\n删除缓存\n\n---\n耗时: 1.0 秒");
}

#[test]
fn stale_and_cancelled_ai_messages_change_nothing() {
    let mut p = panel();
    p.begin(AiTaskTarget::Analysis, "分析中".into());
    p.begin(AiTaskTarget::Analysis, "再次分析".into());
    let next = p.on_message(
        AiMessage::Done { generation: 1, target: AiTaskTarget::Analysis, result: Ok("旧".into()) },
        false,
        "",
    );
    assert!(matches!(next, AiNext::Continue));
    assert_eq!(p.analysis_output, "再次分析");
    let next = p.on_message(
        AiMessage::Done { generation: 2, target: AiTaskTarget::Analysis, result: Err("x".into()) },
        true,
        "",
    );
    assert!(matches!(next, AiNext::Detach));
    assert!(p.loading);
    p.on_message(AiMessage::Done { generation: 2, target: AiTaskTarget::Analysis, result: Err("超时".into()) }, false, "");
    assert_eq!(p.analysis_output, "错误: 超时\n\n---\n耗时: ");
}

#[test]
fn cancelling_and_preparing_a_health_check() {
    let mut p = panel();
    p.cancel("1 秒");
    assert_eq!(p.analysis_output, "");
    p.begin(AiTaskTarget::Analysis, "分析中".into());
    p.cancel("2.0 秒");
    assert!(p.cancelled && !p.loading && !p.timed);
    assert_eq!(p.analysis_output, "分析已打断。\n\n---\n耗时: 2.0 秒");
    p.begin(AiTaskTarget::Cleanup, "计划中".into());
    p.tab = AiPanelTab::CleanupPlan;
    p.prepare_health_check("C:");
    assert!(p.cancelled && !p.loading);
    assert_eq!(p.tab, AiPanelTab::FolderAnalysis);
    assert_eq!(p.analysis_output, "正在扫描 C:，完成后生成健康检查报告...");
    assert_eq!(p.cleanup_output, "计划中");
}

#[test]
fn ai_requests_are_refused_until_there_is_something_to_analyse() {
    let rows = vec![entry("a"), entry("b")];
    assert!(matches!(
        folder_analysis_request(None, ViewMode::Directory, &rows),
        AnalysisRequest::Refused(m) if m == "请先在列表中选择一个文件夹或文件。"
    ));
    assert!(matches!(
        folder_analysis_request(Some(0), ViewMode::Home, &rows),
        AnalysisRequest::Refused(m) if m == "请先双击磁盘进入目录，再选择要分析的项目。"
    ));
    assert!(matches!(folder_analysis_request(Some(1), ViewMode::Directory, &rows), AnalysisRequest::Run(e) if e.name == "b"));
    assert!(matches!(folder_analysis_request(Some(2), ViewMode::FullScan, &rows), AnalysisRequest::Ignored));
    assert_eq!(structure_analysis_refusal(ViewMode::Directory, 0).as_deref(), Some("请先进入目录并完成扫描。"));
    assert_eq!(structure_analysis_refusal(ViewMode::Home, 3).as_deref(), Some("请先进入目录并完成扫描。"));
    assert_eq!(structure_analysis_refusal(ViewMode::Directory, 3), None);
    assert_eq!(deep_analysis_refusal(false).as_deref(), Some("深度分析仅支持文件夹。"));
    assert_eq!(deep_analysis_refusal(true), None);
    assert_eq!(cleanup_plan_refusal(ViewMode::FullScan, 0).as_deref(), Some("请先扫描目录或执行全盘扫描。"));
    assert_eq!(cleanup_plan_refusal(ViewMode::FullScan, 4), None);
    assert_eq!(deep_scan_status("Users"), "正在深层扫描「Users」的目录结构...");
}
