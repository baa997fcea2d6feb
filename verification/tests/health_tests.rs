use driver_doctor::ai::HealthCheckReply;
use driver_doctor::entries::{ScanEntry, ScanNode, Share};
use driver_doctor::scan::{scan_directory_with_tree, Found, Walked};
use driver_doctor::health::{
    append_health_check_scope, finalize_health_check_report, health_check_initial_deep_targets,
    Command, Event, HealthCheck, Step,
};

const GIB: u64 = 1024 * 1024 * 1024;

fn entry(path: &str, is_dir: bool, size: u64) -> ScanEntry {
    ScanEntry {
        name: path.rsplit('\\').next().unwrap().into(),
        path: path.into(),
        is_dir,
        size,
        allocated: size,
        file_count: 0,
        folder_count: 0,
        percent: Share { part: 0, whole: 0 },
    }
}

fn probed(eligible: bool, key: &str) -> Event {
    Event::Probed { cancelled: false, eligible, key: key.into() }
}

fn resume(hc: &mut HealthCheck, e: Event) -> Step {
    assert!(hc.expects_event(&e));
    hc.resume(e)
}

fn path_of(step: &Step) -> &str {
    match &step.command {
        Command::Probe { path } | Command::Scan { path } => path,
        _ => panic!("no path"),
    }
}

#[test]
fn initial_targets_are_the_six_largest_big_folders() {
    let mut entries = vec![
        entry(r"C:\small", true, 1),
        entry(r"C:\file", false, 10 * GIB),
        entry(r"C:\tie-a", true, 2 * GIB),
    ];
    for i in 0..6 {
        entries.push(entry(&format!(r"C:\d{i}"), true, (i + 3) * GIB));
    }
    entries.push(entry(r"C:\tie-b", true, 2 * GIB));
    let targets = health_check_initial_deep_targets(&entries);
    assert_eq!(targets, vec![r"C:\d5", r"C:\d4", r"C:\d3", r"C:\d2", r"C:\d1", r"C:\d0"]);
    let few = vec![entry(r"C:\a", true, 3), entry(r"C:\b", true, 100), entry(r"C:\c", true, 1)];
    assert_eq!(health_check_initial_deep_targets(&few), vec![r"C:\b", r"C:\a"]);
}

#[test]
fn health_check_scans_deeper_asks_the_ai_and_plans_the_cleanup() {
    let entries = vec![entry(r"C:\Users", true, 2 * GIB), entry(r"C:\pagefile.sys", false, GIB)];
    let (mut hc, step) = HealthCheck::start(r"C:\", r"C:\", &entries, None);
    assert_eq!(step.progress, vec!["已完成第一层扫描，共 2 项。\n正在准备健康检查数据...".to_string()]);
    assert_eq!(path_of(&step), r"C:\Users");
    assert!(hc.context().contains("scan_mode: \"health_check_root\""));

    let step = resume(&mut hc, probed(true, r"C:\Users"));
    assert!(matches!(&step.command, Command::Scan { path } if path == r"C:\Users"));
    assert_eq!(step.progress, vec![r"正在递归生成诊断树，第 1 层 1/1：C:\Users".to_string()]);

    let child = vec![entry(r"C:\Users\A", true, 10)];
    let step = resume(&mut hc, Event::Scanned { outcome: Ok(child) });
    assert!(hc.context().contains("## health_check_initial_child round=1 path=\"C:\\Users\""));
    assert_eq!(path_of(&step), r"C:\Users\A");

    let step = resume(&mut hc, probed(false, r"C:\Users\A"));
    assert!(matches!(step.command, Command::CheckCancel));

    let step = resume(&mut hc, Event::Cancel { cancelled: false });
    assert!(matches!(step.command, Command::Ask { round: 1, force_report: false }));
    assert_eq!(step.progress, vec!["正在请求 AI 判断是否需要深挖（第 1 轮）...".to_string()]);

    let paths = vec![r"C:\Users".to_string(), r"C:\Temp".to_string()];
    let step = resume(&mut hc, Event::Answered { reply: Ok(HealthCheckReply::NeedPaths(paths)) });
    assert_eq!(step.progress, vec!["AI 请求继续深挖 2 个路径，正在准备扫描...".to_string()]);
    assert_eq!(path_of(&step), r"C:\Users");

    let step = resume(&mut hc, probed(true, r"C:\Users"));
    assert_eq!(path_of(&step), r"C:\Temp");
    assert!(matches!(step.command, Command::Probe { .. }));

    let step = resume(&mut hc, probed(true, r"C:\Temp"));
    assert!(matches!(step.command, Command::Scan { .. }));
    assert!(step.progress[0].contains("第 2/2 个（第 1 轮）"));

    let step = resume(&mut hc, Event::Scanned { outcome: Err("access denied".into()) });
    assert!(hc.context().contains("skipped_child_scope round=1 path=\"C:\\Temp\""));
    assert!(matches!(step.command, Command::CheckCancel));

    let step = resume(&mut hc, Event::Cancel { cancelled: false });
    assert!(matches!(step.command, Command::Ask { round: 2, force_report: false }));

    let step = resume(&mut hc, Event::Answered { reply: Ok(HealthCheckReply::Report("R".into())) });
    assert!(matches!(&step.command, Command::PlanCleanup { report } if report == "R"));
    assert_eq!(step.progress, vec!["正在基于健康检查报告生成清理计划...".to_string()]);

    let step = resume(&mut hc, Event::Planned { plan: Ok("P".into()) });
    assert!(matches!(&step.command, Command::Finish { result: Ok(text) } if text == "R\n\nP"));
    assert!(hc.is_done());
    assert!(!hc.expects_event(&Event::Cancel { cancelled: false }));
}

#[test]
fn a_cancelled_check_ends_with_an_error() {
    let entries = vec![entry(r"C:\f", false, 5)];
    let (mut hc, step) = HealthCheck::start(r"C:\", r"C:\", &entries, None);
    assert!(matches!(step.command, Command::CheckCancel));
    let step = resume(&mut hc, Event::Cancel { cancelled: true });
    assert!(matches!(&step.command, Command::Finish { result: Err(e) } if e == "分析已打断"));
}

#[test]
fn unscannable_requests_force_the_report() {
    let leaf = ScanNode {
        entry: entry(r"C:\", true, 0),
        children: Vec::new(),
    };
    let (mut hc, step) = HealthCheck::start(r"C:\", r"C:\", &Vec::new(), Some(&leaf));
    assert!(hc.context().starts_with("# Full Scan Diagnostic Tree"));
    assert!(matches!(step.command, Command::CheckCancel));
    resume(&mut hc, Event::Cancel { cancelled: false });
    let step = resume(
        &mut hc,
        Event::Answered { reply: Ok(HealthCheckReply::NeedPaths(vec![r"D:\x".to_string()])) },
    );
    let step2 = resume(&mut hc, probed(false, r"D:\x"));
    assert_eq!(path_of(&step), r"D:\x");
    assert!(matches!(step2.command, Command::Ask { round: 2, force_report: true }));
    assert_eq!(step2.progress, vec!["AI 请求的深挖路径无可扫描项，正在强制生成报告...".to_string()]);
    let step3 = resume(&mut hc, Event::Answered { reply: Ok(HealthCheckReply::NeedPaths(Vec::new())) });
    assert!(matches!(&step3.command, Command::Finish { result: Err(e) } if e == "AI 未在最终轮次返回报告"));
}

#[test]
fn round_three_must_report_and_round_four_is_the_last() {
    let (mut hc, _) = HealthCheck::start(r"C:\", r"C:\", &Vec::new(), None);
    let mut round = 0;
    for _ in 0..3 {
        let step = resume(&mut hc, Event::Cancel { cancelled: false });
        match step.command {
            Command::Ask { round: r, force_report } => {
                round = r;
                assert_eq!(force_report, r == 3);
            }
            _ => panic!("ask"),
        }
        if round < 3 {
            let p = format!("p{round}");
            let s = resume(&mut hc, Event::Answered { reply: Ok(HealthCheckReply::NeedPaths(vec![p.clone()])) });
            resume(&mut hc, Event::Probed { cancelled: false, eligible: true, key: p.clone() });
            let s2 = resume(&mut hc, Event::Scanned { outcome: Ok(Vec::new()) });
            assert_eq!(path_of(&s), p);
            assert!(matches!(s2.command, Command::CheckCancel));
            assert_eq!(s2.progress, vec!["已追加第 1/1 个深挖路径。\n正在准备下一轮 AI 判断...".to_string()]);
        }
    }
    assert_eq!(round, 3);
    let step = resume(&mut hc, Event::Answered { reply: Ok(HealthCheckReply::NeedPaths(vec!["q".into()])) });
    assert!(matches!(step.command, Command::Ask { round: 4, force_report: true }));
    assert_eq!(step.progress, vec!["正在请求最终健康检查报告...".to_string()]);
    let step = resume(&mut hc, Event::Answered { reply: Err("network".into()) });
    assert!(matches!(&step.command, Command::Finish { result: Err(e) } if e == "network"));
}

#[test]
fn scopes_and_final_texts() {
    let mut rag = String::from("x");
    append_health_check_scope(&mut rag, "m", 3, r"C:\p", &vec![entry(r"C:\p\a", true, 1)]);
    assert!(rag.starts_with("x\n\n## m round=3 path=\"C:\\p\"\n\n# Disk Diagnostic Tree"));
    assert_eq!(finalize_health_check_report("R", Ok("C".into())), "R\n\nC");
    assert_eq!(
        finalize_health_check_report("R", Err("E".into())),
        "R\n\n## 清理计划\n清理计划生成失败：E\n\n## 执行说明\n请先查看占用报告，确认路径后再手动处理。"
    );
}

#[test]
fn health_check_report_runs_second_cleanup_plan_step() {
    let (mut hc, step) = HealthCheck::start(r"C:\", r"C:\", &Vec::new(), None);
    assert!(matches!(step.command, Command::CheckCancel));
    let step = resume(&mut hc, Event::Cancel { cancelled: false });
    assert!(matches!(step.command, Command::Ask { round: 1, force_report: false }));
    let step = resume(&mut hc, Event::Answered { reply: Ok(HealthCheckReply::Report("## 占用报告".into())) });
    assert!(matches!(&step.command, Command::PlanCleanup { report } if report == "## 占用报告"));
    assert_eq!(step.progress, vec!["正在基于健康检查报告生成清理计划...".to_string()]);
    let step = resume(&mut hc, Event::Planned { plan: Err("超时".into()) });
    match &step.command {
        Command::Finish { result: Ok(text) } => {
            assert!(text.starts_with("## 占用报告\n\n## 清理计划\n清理计划生成失败：超时"));
        }
        _ => panic!("finish"),
    }
}

#[test]
fn health_check_auto_deepens_top_large_directories_before_ai_report() {
    let entries = vec![
        entry(r"C:\Windows", true, 3 * GIB),
        entry(r"C:\Users", true, 5 * GIB),
        entry(r"C:\tiny", true, 1),
    ];
    let (mut hc, step) = HealthCheck::start(r"C:\", r"C:\", &entries, None);
    assert_eq!(path_of(&step), r"C:\Users");
    let step = resume(&mut hc, probed(true, r"C:\Users"));
    assert!(matches!(step.command, Command::Scan { .. }));
    let step = resume(&mut hc, Event::Scanned { outcome: Ok(Vec::new()) });
    assert!(hc.context().contains("## health_check_initial_child round=1 path=\"C:\\Users\""));
    assert_eq!(path_of(&step), r"C:\Windows");
    let step = resume(&mut hc, probed(true, r"C:\Windows"));
    let step2 = resume(&mut hc, Event::Scanned { outcome: Ok(Vec::new()) });
    assert!(matches!(step.command, Command::Scan { .. }));
    assert!(hc.context().contains("## health_check_initial_child round=1 path=\"C:\\Windows\""));
    assert!(matches!(step2.command, Command::CheckCancel));
    let step3 = resume(&mut hc, Event::Cancel { cancelled: false });
    assert!(matches!(step3.command, Command::Ask { round: 1, force_report: false }));
}

#[test]
fn scan_result_tree_is_cached_and_used_by_health_check() {
    let cache = Walked { name: "cache.bin".into(), path: r"C:\Users\A\cache.bin".into(), found: Found::File { len: 16 } };
    let a = Walked { name: "A".into(), path: r"C:\Users\A".into(), found: Found::Dir { children: vec![cache] } };
    let users = Walked { name: "Users".into(), path: r"C:\Users".into(), found: Found::Dir { children: vec![a] } };
    let root = Walked { name: r"C:\".into(), path: r"C:\".into(), found: Found::Dir { children: vec![users] } };
    let result = scan_directory_with_tree(r"C:\", true, &root, 4096, false).unwrap();
    let tree = result.tree.unwrap();
    let (mut hc, step) = HealthCheck::start(r"C:\", r"C:\", &result.entries, Some(&tree));
    assert!(hc.context().contains("health_check_full_tree"));
    assert!(hc.context().contains(r"C:\Users\A"));
    assert!(matches!(step.command, Command::CheckCancel));
    let step = resume(&mut hc, Event::Cancel { cancelled: false });
    assert!(matches!(step.command, Command::Ask { round: 1, force_report: false }));
}
