//! The prompts of the AI tasks: system prompts, the environment description, and the user
//! messages of each task.
use vstd::prelude::*;
use crate::ai::{wrapped_system, wrap_system};
use crate::entries::{percent_text, push_percent, DriveInfo, ScanEntry, Share, used_of};
use crate::format::{format_size, size_text};
use crate::text::{dec, push_dec, push_str};

verus! {
/// The system prompt of a single folder analysis.
pub const FOLDER_ANALYSIS_PROMPT: &'static str = "你是 Windows 磁盘空间分析助手 Driver Doctor。\n请用简体中文说明路径用途、主要占用项、清理风险和具体清理入口。";

/// The system prompt of a folder structure analysis.
pub const STRUCTURE_ANALYSIS_PROMPT: &'static str = "你是 Driver Doctor 磁盘结构分析助手。\n用户会提供目录结构 RAG。请按路径和大小分析主要占用、用途、风险和清理建议。";

/// The system prompt of a cleanup plan.
pub const CLEANUP_PLAN_PROMPT: &'static str = "你是 Windows 磁盘清理规划助手。\n请生成清理计划，包含优先级、预计释放空间、步骤和不要删除的系统路径提醒。";

/// The system prompt of a drive health check.
pub const HEALTH_CHECK_PROMPT: &'static str = "你是 Driver Doctor 空间医生，负责 Windows 磁盘健康检查。\n用户会提供盘符、系统环境和 disk_diagnostic_tree 数据。\n生成报告前必须基于路径名联网检索常见来源、生成原因、官方或社区推荐清理方式。\n如果当前模型或服务商没有实际联网，请明确说明“未实际联网，仅基于通用知识判断”。\n\n最终报告必须包含：\n## 占用报告\n- 按影响排序列出主要文件夹和文件。\n- 说明常见来源、生成原因、是否属于系统或应用关键路径。\n- 引用 disk_diagnostic_tree 中的路径、大小、上下级关系和 folded summary。\n\n## 清理意见报告\n- 每项包含目标路径、预计释放空间、风险等级、推荐处理方式、具体操作步骤。\n- 优先级遵守：设置转移 > 设置自动清理 > 设置关闭生成 > 卸载占用程序 > 暴力删除。\n\n## 膨胀规避\n- 说明如何避免同类目录再次膨胀。\n\n## 执行优先级\n- 给出 1 到 N 的执行顺序。";


/// One line of the drive overview of the environment description.
pub open spec fn drive_line(d: DriveInfo) -> Seq<char> {
    "  · "@ + d.letter@ + ": 总 "@ + size_text(d.total_bytes as nat) + " / 可用 "@ + size_text(d.free_bytes as nat)
        + " ("@ + percent_text(Share { part: used_of(d.total_bytes, d.free_bytes), whole: d.total_bytes }, 0)
        + "% 已用)\n"@
}

/// The drive overview lines.
pub open spec fn drive_lines(ds: Seq<DriveInfo>) -> Seq<char>
    decreases ds.len(),
{
    if ds.len() == 0 {
        Seq::empty()
    } else {
        drive_lines(ds.drop_last()) + drive_line(ds.last())
    }
}

/// The environment description handed to the AI: user and computer names, the time, the
/// path browsed (when there is one) and an overview of the drives (when there are any).
pub open spec fn system_context_text(user: Seq<char>, computer: Seq<char>, now: Seq<char>, current: Option<Seq<char>>, ds: Seq<DriveInfo>) -> Seq<char> {
    "[系统环境]\n- 操作系统: Windows\n- 用户名: "@ + user + "\n- 计算机名: "@ + computer + "\n- 当前时间: "@ + now + "\n"@
        + match current {
        Some(p) => if p.len() > 0 {
            "- 当前浏览路径: "@ + p + "\n"@
        } else {
            Seq::empty()
        },
        None => Seq::empty(),
    } + if ds.len() > 0 {
        "- 磁盘概况:\n"@ + drive_lines(ds)
    } else {
        Seq::empty()
    }
}

/// The view of an optional text.
pub open spec fn opt_text(o: Option<&str>) -> Option<Seq<char>> {
    match o {
        Some(s) => Some(s@),
        None => None,
    }
}

/// Appends one line of the drive overview.
fn push_drive_line(ctx: &mut String, d: &DriveInfo)
    ensures
        final(ctx)@ == old(ctx)@ + drive_line(*d),
{
    push_str(ctx, "  · ");
    push_str(ctx, d.letter.as_str());
    push_str(ctx, ": 总 ");
    let t = format_size(d.total_bytes);
    push_str(ctx, t.as_str());
    push_str(ctx, " / 可用 ");
    let f = format_size(d.free_bytes);
    push_str(ctx, f.as_str());
    push_str(ctx, " (");
    push_percent(ctx, d.used_percent(), 0);
    push_str(ctx, "% 已用)\n");
}

/// The drive overview lines.
fn drive_overview(drives: &Vec<DriveInfo>) -> (s: String)
    ensures
        s@ == drive_lines(drives@),
{
    let mut s = String::new();
    let mut i: usize = 0;
    while i < drives.len()
        invariant
            i <= drives@.len(),
            s@ == drive_lines(drives@.take(i as int)),
        decreases drives@.len() - i,
    {
        assert(drives@.take(i + 1).drop_last() == drives@.take(i as int));
        push_drive_line(&mut s, &drives[i]);
        i += 1;
    }
    assert(drives@.take(drives@.len() as int) == drives@);
    s
}

/// The environment description from the user and computer names, the local time, the path
/// browsed and the drives.
pub fn build_system_context(user: &str, computer: &str, now: &str, current_path: Option<&str>, drives: &Vec<DriveInfo>) -> (ctx: String)
    ensures
        ctx@ == system_context_text(user@, computer@, now@, opt_text(current_path), drives@),
{
    let mut ctx = String::new();
    push_str(&mut ctx, "[系统环境]\n- 操作系统: Windows\n- 用户名: ");
    push_str(&mut ctx, user);
    push_str(&mut ctx, "\n- 计算机名: ");
    push_str(&mut ctx, computer);
    push_str(&mut ctx, "\n- 当前时间: ");
    push_str(&mut ctx, now);
    push_str(&mut ctx, "\n");
    let ghost head = ctx@;
    let mut path_part = String::new();
    if let Some(p) = current_path {
        if crate::text::chars_of(p).len() > 0 {
            push_str(&mut path_part, "- 当前浏览路径: ");
            push_str(&mut path_part, p);
            push_str(&mut path_part, "\n");
        }
    }
    push_str(&mut ctx, path_part.as_str());
    let mut drive_part = String::new();
    if drives.len() > 0 {
        push_str(&mut drive_part, "- 磁盘概况:\n");
        let lines = drive_overview(drives);
        push_str(&mut drive_part, lines.as_str());
    }
    push_str(&mut ctx, drive_part.as_str());
    ctx
}

/// The system and user messages of one AI task.
pub struct ChatPrompt {
    pub system: String,
    pub user: String,
}

/// The user message of a single folder analysis.
pub open spec fn folder_user_text(context: Seq<char>, path: Seq<char>, size: nat, extra: Seq<char>) -> Seq<char> {
    context + "\n\n请分析以下文件夹：\n路径: "@ + path + "\n大小: "@ + size_text(size) + "\n"@ + extra
}

/// The prompt of a single folder analysis.
pub fn analyze_folder_prompt(context: &str, path: &str, size: u64, extra_context: Option<&str>) -> (p: ChatPrompt)
    ensures
        p.system@ == wrapped_system(FOLDER_ANALYSIS_PROMPT@, context@),
        p.user@ == folder_user_text(context@, path@, size as nat, match extra_context {
            Some(e) => e@,
            None => Seq::empty(),
        }),
{
    let mut user = String::new();
    push_str(&mut user, context);
    push_str(&mut user, "\n\n请分析以下文件夹：\n路径: ");
    push_str(&mut user, path);
    push_str(&mut user, "\n大小: ");
    let z = format_size(size);
    push_str(&mut user, z.as_str());
    push_str(&mut user, "\n");
    if let Some(e) = extra_context {
        push_str(&mut user, e);
    }
    ChatPrompt { system: wrap_system(FOLDER_ANALYSIS_PROMPT, context), user }
}

/// The user message of a current-structure analysis.
pub open spec fn structure_user_text(context: Seq<char>, root: Seq<char>, rag: Seq<char>) -> Seq<char> {
    context + "\n\n## 分析任务\n分析当前目录 `"@ + root + "` 的内部结构，找出占用大户并给出清理建议。\n\n## RAG 目录结构文档\n\n"@ + rag
}

/// The prompt of an analysis of the current folder's structure.
pub fn analyze_current_structure_prompt(context: &str, root: &str, rag_document: &str) -> (p: ChatPrompt)
    ensures
        p.system@ == wrapped_system(STRUCTURE_ANALYSIS_PROMPT@, context@),
        p.user@ == structure_user_text(context@, root@, rag_document@),
{
    let mut user = String::new();
    push_str(&mut user, context);
    push_str(&mut user, "\n\n## 分析任务\n分析当前目录 `");
    push_str(&mut user, root);
    push_str(&mut user, "` 的内部结构，找出占用大户并给出清理建议。\n\n## RAG 目录结构文档\n\n");
    push_str(&mut user, rag_document);
    ChatPrompt { system: wrap_system(STRUCTURE_ANALYSIS_PROMPT, context), user }
}

/// The user message of a deep structure analysis.
pub open spec fn deep_user_text(context: Seq<char>, rag: Seq<char>) -> Seq<char> {
    context + "\n\n## 分析任务\n对以下文件夹做深度结构分析，识别各层级占用构成。\n\n## RAG 深度结构文档\n\n"@ + rag
}

/// The prompt of a deep structure analysis.
pub fn analyze_deep_structure_prompt(context: &str, rag_document: &str) -> (p: ChatPrompt)
    ensures
        p.system@ == wrapped_system(STRUCTURE_ANALYSIS_PROMPT@, context@),
        p.user@ == deep_user_text(context@, rag_document@),
{
    let mut user = String::new();
    push_str(&mut user, context);
    push_str(&mut user, "\n\n## 分析任务\n对以下文件夹做深度结构分析，识别各层级占用构成。\n\n## RAG 深度结构文档\n\n");
    push_str(&mut user, rag_document);
    ChatPrompt { system: wrap_system(STRUCTURE_ANALYSIS_PROMPT, context), user }
}

/// One line of the list of a cleanup plan request: `{rank}. {name} - {size} ({path})`.
pub open spec fn plan_line(rank: nat, e: ScanEntry) -> Seq<char> {
    dec(rank) + ". "@ + e.name@ + " - "@ + size_text(e.size as nat) + " ("@ + e.path@ + ")\n"@
}

/// The lines of the list of a cleanup plan request, ranked from 1.
pub open spec fn plan_lines(es: Seq<ScanEntry>) -> Seq<char>
    decreases es.len(),
{
    if es.len() == 0 {
        Seq::empty()
    } else {
        plan_lines(es.drop_last()) + plan_line(es.len(), es.last())
    }
}

/// The user message of a cleanup plan: the environment and the scanned entries in order.
pub open spec fn plan_user_text(context: Seq<char>, es: Seq<ScanEntry>) -> Seq<char> {
    context + "\n\n"@ + "全盘扫描结果（按大小降序）：\n\n"@ + plan_lines(es)
}

/// Appends one line of the list of a cleanup plan request.
fn push_plan_line(out: &mut String, rank: usize, e: &ScanEntry)
    ensures
        final(out)@ == old(out)@ + plan_line(rank as nat, *e),
{
    push_dec(out, rank as u128);
    push_str(out, ". ");
    push_str(out, e.name.as_str());
    push_str(out, " - ");
    let z = format_size(e.size);
    push_str(out, z.as_str());
    push_str(out, " (");
    push_str(out, e.path.as_str());
    push_str(out, ")\n");
}

/// The prompt of a cleanup plan for the scanned entries.
pub fn generate_cleanup_plan_prompt(context: &str, entries: &Vec<ScanEntry>) -> (p: ChatPrompt)
    ensures
        p.system@ == wrapped_system(CLEANUP_PLAN_PROMPT@, context@),
        p.user@ == plan_user_text(context@, entries@),
{
    let mut user = String::new();
    push_str(&mut user, context);
    push_str(&mut user, "\n\n");
    push_str(&mut user, "全盘扫描结果（按大小降序）：\n\n");
    let ghost start = user@;
    let mut i: usize = 0;
    while i < entries.len()
        invariant
            i <= entries@.len(),
            user@ == start + plan_lines(entries@.take(i as int)),
        decreases entries@.len() - i,
    {
        assert(entries@.take(i + 1).drop_last() == entries@.take(i as int));
        push_plan_line(&mut user, i + 1, &entries[i]);
        i += 1;
    }
    assert(entries@.take(entries@.len() as int) == entries@);
    ChatPrompt { system: wrap_system(CLEANUP_PLAN_PROMPT, context), user }
}

/// The task text of a cleanup plan drawn from a health report.
pub const HEALTH_PLAN_TASK: &'static str = "\n\n## 任务\n基于下面的健康检查报告，生成单独的清理计划。\n只选择相对安全且推荐的清理条目，优先使用设置转移、自动清理、关闭生成、卸载程序，谨慎给出删除建议。\n每个条目必须尽量包含 Windows 绝对路径，方便 Driver Doctor 生成临时 BAT 入口。\n\n## 输出格式\n请使用 Markdown，必须包含：\n## 清理计划\n| 优先级 | 路径 | 风险 | 推荐方式 | BAT入口说明 |\n| --- | --- | --- | --- | --- |\n\n## 执行说明\n- 说明 BAT 只作为用户确认后的入口，不应默认静默删除。\n\n## 健康检查报告\n\n";

/// The user message of a cleanup plan drawn from a health report.
pub open spec fn health_plan_user_text(context: Seq<char>, report: Seq<char>) -> Seq<char> {
    context + HEALTH_PLAN_TASK@ + report
}

/// The prompt of a cleanup plan drawn from a health report.
pub fn cleanup_plan_from_report_prompt(context: &str, health_report: &str) -> (p: ChatPrompt)
    ensures
        p.system@ == wrapped_system(CLEANUP_PLAN_PROMPT@, context@),
        p.user@ == health_plan_user_text(context@, health_report@),
{
    let mut user = String::new();
    push_str(&mut user, context);
    push_str(&mut user, HEALTH_PLAN_TASK);
    push_str(&mut user, health_report);
    ChatPrompt { system: wrap_system(CLEANUP_PLAN_PROMPT, context), user }
}

/// The protocol text before the round number of a health-check step.
pub const HEALTH_STEP_HEAD: &'static str = "\n\n## 健康检查交互协议\n当前轮次: ";

/// The protocol text after the mode line of a health-check step.
pub const HEALTH_STEP_TAIL: &'static str = "\n\n返回格式只能二选一：\n\nNEED_PATHS\n[\"C:\\\\需要深挖的路径\", \"C:\\\\另一个路径\"]\n\n或：\n\nREPORT\n<完整 Markdown 诊断报告>\n\n请求深化时最多列出 6 个路径，必须来自已提供的 major_items 路径，优先选高占用且用途不明确的目录。\n\n## 当前累计 disk_diagnostic_tree\n\n";

/// The mode line of a health-check step: a report is required, or asked for when the data
/// suffices.
pub open spec fn step_mode_text(force_report: bool) -> Seq<char> {
    if force_report {
        "必须返回 REPORT，不要再请求路径。"@
    } else {
        "如果当前数据足够生成可靠报告，返回 REPORT；如果还需要深挖，只返回 NEED_PATHS。"@
    }
}

/// The user message of one health-check round.
pub open spec fn health_step_user_text(context: Seq<char>, rag: Seq<char>, round: nat, force_report: bool) -> Seq<char> {
    context + HEALTH_STEP_HEAD@ + dec(round) + "\n"@ + step_mode_text(force_report) + HEALTH_STEP_TAIL@ + rag
}

/// The prompt of one health-check round over the diagnostic context.
pub fn health_check_step_prompt(context: &str, rag_document: &str, round: u32, force_report: bool) -> (p: ChatPrompt)
    ensures
        p.system@ == wrapped_system(HEALTH_CHECK_PROMPT@, context@),
        p.user@ == health_step_user_text(context@, rag_document@, round as nat, force_report),
{
    let mut user = String::new();
    push_str(&mut user, context);
    push_str(&mut user, HEALTH_STEP_HEAD);
    push_dec(&mut user, round as u128);
    push_str(&mut user, "\n");
    if force_report {
        push_str(&mut user, "必须返回 REPORT，不要再请求路径。");
    } else {
        push_str(&mut user, "如果当前数据足够生成可靠报告，返回 REPORT；如果还需要深挖，只返回 NEED_PATHS。");
    }
    push_str(&mut user, HEALTH_STEP_TAIL);
    push_str(&mut user, rag_document);
    ChatPrompt { system: wrap_system(HEALTH_CHECK_PROMPT, context), user }
}

} // verus!
