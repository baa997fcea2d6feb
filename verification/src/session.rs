//! What the window does with the messages of a running scan or AI task: which messages
//! still count, what the status lines say, and where a finished answer goes.
use vstd::prelude::*;
use crate::report::{scan_status_text, split_analysis, split_cleanup, split_health_report, health_check_scan_status};
use crate::scan::{ScanProgress, ScanResult};
use crate::text::{chars_of, contains, contains_exec, dec, push_dec, push_str};
use crate::entries::{clone_entry, ScanEntry};
use crate::view::{ai_tab_for_target, tab_of, AiPanelTab, AiTaskTarget, ViewMode};

verus! {

/// The duration line appended under a finished text: nothing when the task was not timed.
pub open spec fn elapsed_tail(timed: bool, elapsed: Seq<char>) -> Seq<char> {
    if timed {
        "\n\n---\n耗时: "@ + elapsed
    } else {
        Seq::empty()
    }
}

/// `text` with the duration line of the task.
pub fn append_elapsed(text: String, timed: bool, elapsed: &str) -> (s: String)
    ensures
        s@ == text@ + elapsed_tail(timed, elapsed@),
{
    let mut s = text;
    if timed {
        push_str(&mut s, "\n\n---\n耗时: ");
        push_str(&mut s, elapsed);
    }
    s
}

/// A message from a running scan.
pub enum ScanMessage {
    /// The scan has reached another path.
    Progress { generation: u64, progress: ScanProgress },
    /// The scan is over.
    Done { generation: u64, result: Result<ScanResult, String> },
}

/// What one scan message did.
pub enum ScanStep {
    /// It belonged to an earlier scan, or the scan had moved on.
    Ignored,
    /// The progress shown was updated.
    Progressed,
    /// The current scan ended: `ok` when it succeeded, with its result.
    Finished { ok: bool, result: Option<ScanResult> },
}

/// The status line of a scan that listed `n` items.
pub open spec fn scan_done_text(n: nat, timed: bool, elapsed: Seq<char>) -> Seq<char> {
    "完成，共 "@ + dec(n) + " 项"@ + if timed {
        "，耗时 "@ + elapsed
    } else {
        Seq::empty()
    }
}

/// The status line of a scan that failed with `e`.
pub open spec fn scan_error_text(e: Seq<char>, timed: bool, elapsed: Seq<char>) -> Seq<char> {
    e + if timed {
        "（耗时 "@ + elapsed + "）"@
    } else {
        Seq::empty()
    }
}

/// The status line of a scan that has just started on `path` with `n` items listed.
pub open spec fn scan_started_text(path: Seq<char>, n: nat) -> Seq<char> {
    "已进入 "@ + path + "，正在计算大小（"@ + dec(n) + " 项）..."@
}

/// The scan side of the window: which scan is current, whether it runs, and what the status
/// line says.
pub struct ScanSession {
    pub generation: u64,
    pub scanning: bool,
    pub status: String,
    pub scanned_files: u64,
    /// The scan has a start time that its end reports.
    pub timed: bool,
}

impl ScanSession {
    /// Starts a new scan of `path`, whose items were listed as `listed` before their sizes
    /// are known; messages of earlier scans no longer count.
    pub fn start_directory(&mut self, path: &str, listed: usize)
        requires
            old(self).generation < u64::MAX,
        ensures
            final(self).generation == old(self).generation + 1,
            final(self).scanning,
            final(self).timed,
            final(self).scanned_files == 0,
            final(self).status@ == scan_started_text(path@, listed as nat),
    {
        self.generation = self.generation + 1;
        self.scanning = true;
        self.timed = true;
        self.scanned_files = 0;
        let mut s = String::new();
        push_str(&mut s, "已进入 ");
        push_str(&mut s, path);
        push_str(&mut s, "，正在计算大小（");
        push_dec(&mut s, listed as u128);
        push_str(&mut s, " 项）...");
        self.status = s;
    }

    /// Starts a new scan of all drives.
    pub fn start_full_scan(&mut self)
        requires
            old(self).generation < u64::MAX,
        ensures
            final(self).generation == old(self).generation + 1,
            final(self).scanning,
            final(self).timed,
            final(self).scanned_files == 0,
            final(self).status@ == "正在全盘扫描各盘根目录..."@,
    {
        self.generation = self.generation + 1;
        self.scanning = true;
        self.timed = true;
        self.scanned_files = 0;
        self.status = String::from_str("正在全盘扫描各盘根目录...");
    }

    /// Asks the current scan to stop.
    pub fn cancel(&mut self)
        ensures
            final(self).status@ == "正在取消..."@,
            final(self).generation == old(self).generation,
            final(self).scanning == old(self).scanning,
            final(self).timed == old(self).timed,
            final(self).scanned_files == old(self).scanned_files,
    {
        self.status = String::from_str("正在取消...");
    }

    /// Handles one message; `elapsed` is the time since the scan started. A message of
    /// another scan changes nothing; a progress message shows its count and path; the end
    /// of the current scan stops its clock and sets the status line, except after a
    /// cancellation, which leaves the line to whatever replaced the scan.
    pub fn on_message(&mut self, msg: ScanMessage, elapsed: &str) -> (step: ScanStep)
        ensures
            final(self).generation == old(self).generation,
            final(self).scanning == old(self).scanning,
            match msg {
                ScanMessage::Progress { generation, progress } => {
                    if generation == old(self).generation {
                        &&& step is Progressed
                        &&& final(self).scanned_files == progress.scanned_files
                        &&& final(self).status@ == progress.current_path@
                        &&& final(self).timed == old(self).timed
                    } else {
                        &&& step is Ignored
                        &&& final(self).status == old(self).status
                        &&& final(self).scanned_files == old(self).scanned_files
                        &&& final(self).timed == old(self).timed
                    }
                },
                ScanMessage::Done { generation, result } => {
                    if generation == old(self).generation {
                        &&& !final(self).timed
                        &&& final(self).scanned_files == old(self).scanned_files
                        &&& match result {
                            Ok(r) => {
                                &&& step == (ScanStep::Finished { ok: true, result: Some(r) })
                                &&& final(self).status@ == scan_done_text(
                                    r.entries@.len(),
                                    old(self).timed,
                                    elapsed@,
                                )
                            },
                            Err(e) => {
                                &&& step == (ScanStep::Finished { ok: false, result: None })
                                &&& final(self).status@ == if contains(e@, "取消"@) {
                                    old(self).status@
                                } else {
                                    scan_error_text(e@, old(self).timed, elapsed@)
                                }
                            },
                        }
                    } else {
                        &&& step is Ignored
                        &&& final(self).status == old(self).status
                        &&& final(self).scanned_files == old(self).scanned_files
                        &&& final(self).timed == old(self).timed
                    }
                },
            },
    {
        match msg {
            ScanMessage::Progress { generation, progress } => {
                if generation == self.generation {
                    self.scanned_files = progress.scanned_files;
                    self.status = progress.current_path;
                    ScanStep::Progressed
                } else {
                    ScanStep::Ignored
                }
            },
            ScanMessage::Done { generation, result } => {
                if generation != self.generation {
                    return ScanStep::Ignored;
                }
                let timed = self.timed;
                self.timed = false;
                match result {
                    Ok(r) => {
                        let mut s = String::new();
                        push_str(&mut s, "完成，共 ");
                        push_dec(&mut s, r.entries.len() as u128);
                        push_str(&mut s, " 项");
                        if timed {
                            push_str(&mut s, "，耗时 ");
                            push_str(&mut s, elapsed);
                        }
                        self.status = s;
                        ScanStep::Finished { ok: true, result: Some(r) }
                    },
                    Err(e) => {
                        let cs = chars_of(e.as_str());
                        let mark = chars_of("取消");
                        if !contains_exec(&cs, &mark) {
                            let mut s = e;
                            if timed {
                                push_str(&mut s, "（耗时 ");
                                push_str(&mut s, elapsed);
                                push_str(&mut s, "）");
                            }
                            self.status = s;
                        }
                        ScanStep::Finished { ok: false, result: None }
                    },
                }
            },
        }
    }

    /// The current scan has ended.
    pub fn finish(&mut self)
        ensures
            !final(self).scanning,
            final(self).generation == old(self).generation,
            final(self).status == old(self).status,
            final(self).timed == old(self).timed,
            final(self).scanned_files == old(self).scanned_files,
    {
        self.scanning = false;
    }
}

/// A message from a running AI task.
pub enum AiMessage {
    /// The task reports how far it got.
    Progress { generation: u64, target: AiTaskTarget, message: String },
    /// The task is over, with its answer or its error.
    Done { generation: u64, target: AiTaskTarget, result: Result<String, String> },
}

/// What the window does with the task's channel after a message.
pub enum AiNext {
    /// Keep reading.
    Continue,
    /// Drop the channel: the task was cancelled or has answered.
    Detach,
}

/// The text shown for a finished task.
pub open spec fn rendered_text(result: Result<String, String>, timed: bool, elapsed: Seq<char>) -> Seq<char> {
    (match result {
        Ok(t) => t@,
        Err(e) => "错误: "@ + e@,
    }) + elapsed_tail(timed, elapsed)
}

/// The AI side of the window: the current task, whether it runs or was cancelled, the
/// tab shown, and the text of both tabs.
pub struct AiPanel {
    pub generation: u64,
    pub loading: bool,
    pub cancelled: bool,
    /// The task has a start time that its end reports.
    pub timed: bool,
    pub tab: AiPanelTab,
    pub analysis_output: String,
    pub cleanup_output: String,
}

/// The text of tab `tab`.
pub open spec fn tab_text(p: AiPanel, tab: AiPanelTab) -> Seq<char> {
    match tab {
        AiPanelTab::FolderAnalysis => p.analysis_output@,
        AiPanelTab::CleanupPlan => p.cleanup_output@,
    }
}

/// Every field of the panel but the texts is as in `q`.
pub open spec fn same_state(p: AiPanel, q: AiPanel) -> bool {
    &&& p.generation == q.generation
    &&& p.loading == q.loading
    &&& p.cancelled == q.cancelled
    &&& p.timed == q.timed
    &&& p.tab == q.tab
}

impl AiPanel {
    /// Sets the text of tab `tab`.
    pub fn set_tab_text(&mut self, tab: AiPanelTab, text: String)
        ensures
            same_state(*final(self), *old(self)),
            tab_text(*final(self), tab) == text@,
            tab == AiPanelTab::FolderAnalysis ==> final(self).cleanup_output == old(self).cleanup_output,
            tab == AiPanelTab::CleanupPlan ==> final(self).analysis_output == old(self).analysis_output,
    {
        match tab {
            AiPanelTab::FolderAnalysis => {
                self.analysis_output = text;
            },
            AiPanelTab::CleanupPlan => {
                self.cleanup_output = text;
            },
        }
    }

    /// Starts a new task for `target`: messages of earlier tasks no longer count, and the
    /// task's tab shows `status`. Returns the task's generation.
    pub fn begin(&mut self, target: AiTaskTarget, status: String) -> (g: u64)
        requires
            old(self).generation < u64::MAX,
        ensures
            g == final(self).generation == old(self).generation + 1,
            final(self).loading,
            !final(self).cancelled,
            final(self).timed,
            final(self).tab == old(self).tab,
            tab_text(*final(self), tab_of(target)) == status@,
            tab_of(target) == AiPanelTab::FolderAnalysis ==> final(self).cleanup_output
                == old(self).cleanup_output,
            tab_of(target) == AiPanelTab::CleanupPlan ==> final(self).analysis_output
                == old(self).analysis_output,
    {
        self.generation = self.generation + 1;
        self.cancelled = false;
        self.loading = true;
        self.timed = true;
        self.set_tab_text(ai_tab_for_target(target), status);
        self.generation
    }

    /// Interrupts the running task: the tab shown says so, with the time taken. Does
    /// nothing when no task runs.
    pub fn cancel(&mut self, elapsed: &str)
        ensures
            !old(self).loading ==> *final(self) == *old(self),
            old(self).loading ==> {
                &&& final(self).cancelled
                &&& !final(self).loading
                &&& !final(self).timed
                &&& final(self).generation == old(self).generation
                &&& final(self).tab == old(self).tab
                &&& tab_text(*final(self), old(self).tab) == "分析已打断。"@ + elapsed_tail(
                    old(self).timed,
                    elapsed@,
                )
                &&& old(self).tab == AiPanelTab::FolderAnalysis ==> final(self).cleanup_output
                    == old(self).cleanup_output
                &&& old(self).tab == AiPanelTab::CleanupPlan ==> final(self).analysis_output
                    == old(self).analysis_output
            },
    {
        if !self.loading {
            return;
        }
        self.cancelled = true;
        self.loading = false;
        let timed = self.timed;
        self.timed = false;
        let text = append_elapsed(String::from_str("分析已打断。"), timed, elapsed);
        let tab = self.tab;
        self.set_tab_text(tab, text);
    }

    /// A health check of the drive labelled `label` is about to scan it: a running task is
    /// stopped, and the analysis tab says what comes.
    pub fn prepare_health_check(&mut self, label: &str)
        ensures
            old(self).loading ==> final(self).cancelled && !final(self).timed,
            !old(self).loading ==> final(self).cancelled == old(self).cancelled && final(self).timed
                == old(self).timed,
            !final(self).loading,
            final(self).generation == old(self).generation,
            final(self).tab == AiPanelTab::FolderAnalysis,
            final(self).analysis_output@ == scan_status_text(label@),
            final(self).cleanup_output == old(self).cleanup_output,
    {
        if self.loading {
            self.cancelled = true;
            self.loading = false;
            self.timed = false;
        }
        self.tab = AiPanelTab::FolderAnalysis;
        self.analysis_output = health_check_scan_status(label);
    }

    /// Handles one message, given whether the task was asked to stop and the time since it
    /// started. A message of another task is skipped; any message of a cancelled task drops
    /// the channel; progress replaces the text of the task's tab; the answer stops the task
    /// and goes to its tab (a health report is cut into its analysis and its cleanup part),
    /// with the time taken.
    pub fn on_message(&mut self, msg: AiMessage, cancel_requested: bool, elapsed: &str) -> (next: AiNext)
        ensures
            final(self).generation == old(self).generation,
            final(self).tab == old(self).tab,
            final(self).cancelled == old(self).cancelled,
            match msg {
                AiMessage::Progress { generation, target, message } => {
                    if generation != old(self).generation {
                        next is Continue && *final(self) == *old(self)
                    } else if cancel_requested {
                        next is Detach && *final(self) == *old(self)
                    } else {
                        &&& next is Continue
                        &&& same_state(*final(self), *old(self))
                        &&& tab_text(*final(self), tab_of(target)) == message@
                        &&& tab_of(target) == AiPanelTab::FolderAnalysis
                            ==> final(self).cleanup_output == old(self).cleanup_output
                        &&& tab_of(target) == AiPanelTab::CleanupPlan
                            ==> final(self).analysis_output == old(self).analysis_output
                    }
                },
                AiMessage::Done { generation, target, result } => {
                    if generation != old(self).generation {
                        next is Continue && *final(self) == *old(self)
                    } else if cancel_requested {
                        next is Detach && *final(self) == *old(self)
                    } else {
                        let text = rendered_text(result, old(self).timed, elapsed@);
                        &&& next is Detach
                        &&& !final(self).loading
                        &&& !final(self).timed
                        &&& match target {
                            AiTaskTarget::Analysis => final(self).analysis_output@ == text
                                && final(self).cleanup_output == old(self).cleanup_output,
                            AiTaskTarget::Cleanup => final(self).cleanup_output@ == text
                                && final(self).analysis_output == old(self).analysis_output,
                            AiTaskTarget::HealthCheck => final(self).analysis_output@
                                == split_analysis(text) && final(self).cleanup_output@
                                == split_cleanup(text),
                        }
                    }
                },
            },
    {
        match msg {
            AiMessage::Progress { generation, target, message } => {
                if generation != self.generation {
                    return AiNext::Continue;
                }
                if cancel_requested {
                    return AiNext::Detach;
                }
                self.set_tab_text(ai_tab_for_target(target), message);
                AiNext::Continue
            },
            AiMessage::Done { generation, target, result } => {
                if generation != self.generation {
                    return AiNext::Continue;
                }
                if cancel_requested {
                    return AiNext::Detach;
                }
                self.loading = false;
                let timed = self.timed;
                self.timed = false;
                let body = match result {
                    Ok(t) => t,
                    Err(e) => {
                        let mut s = String::from_str("错误: ");
                        push_str(&mut s, e.as_str());
                        s
                    },
                };
                let rendered = append_elapsed(body, timed, elapsed);
                match target {
                    AiTaskTarget::Analysis => {
                        self.analysis_output = rendered;
                    },
                    AiTaskTarget::Cleanup => {
                        self.cleanup_output = rendered;
                    },
                    AiTaskTarget::HealthCheck => {
                        let split = split_health_report(rendered.as_str());
                        self.analysis_output = split.analysis;
                        self.cleanup_output = split.cleanup;
                    },
                }
                AiNext::Detach
            },
        }
    }
}

/// What a request to analyse the selected row leads to.
pub enum AnalysisRequest {
    /// The request is refused with this message in the analysis tab.
    Refused(String),
    /// The selected row is no longer listed: nothing happens.
    Ignored,
    /// The row to analyse.
    Run(ScanEntry),
}

/// Analysing the selected row needs a selection, and a folder opened (not the drive list);
/// a selection past the listed rows does nothing.
pub fn folder_analysis_request(selected: Option<usize>, mode: ViewMode, rows: &Vec<ScanEntry>) -> (r: AnalysisRequest)
    ensures
        selected is None ==> (r matches AnalysisRequest::Refused(m) && m@ == "请先在列表中选择一个文件夹或文件。"@),
        selected is Some && mode == ViewMode::Home ==> (r matches AnalysisRequest::Refused(m) && m@
            == "请先双击磁盘进入目录，再选择要分析的项目。"@),
        selected is Some && mode != ViewMode::Home && selected->0 < rows@.len() ==> (r matches AnalysisRequest::Run(e)
            && e == rows@[selected->0 as int]),
        selected is Some && mode != ViewMode::Home && selected->0 >= rows@.len() ==> r is Ignored,
{
    match selected {
        None => AnalysisRequest::Refused(String::from_str("请先在列表中选择一个文件夹或文件。")),
        Some(i) => {
            if mode == ViewMode::Home {
                AnalysisRequest::Refused(String::from_str("请先双击磁盘进入目录，再选择要分析的项目。"))
            } else if i < rows.len() {
                AnalysisRequest::Run(clone_entry(&rows[i]))
            } else {
                AnalysisRequest::Ignored
            }
        },
    }
}

/// Why the structure of the current folder cannot be analysed: on the drive list, or
/// before anything is listed.
pub fn structure_analysis_refusal(mode: ViewMode, listed: usize) -> (r: Option<String>)
    ensures
        (mode == ViewMode::Home || listed == 0) ==> (r matches Some(m) && m@ == "请先进入目录并完成扫描。"@),
        !(mode == ViewMode::Home || listed == 0) ==> r is None,
{
    if mode == ViewMode::Home || listed == 0 {
        Some(String::from_str("请先进入目录并完成扫描。"))
    } else {
        None
    }
}

/// Why an item cannot get a deep analysis: only folders can.
pub fn deep_analysis_refusal(is_dir: bool) -> (r: Option<String>)
    ensures
        !is_dir ==> (r matches Some(m) && m@ == "深度分析仅支持文件夹。"@),
        is_dir ==> r is None,
{
    if is_dir {
        None
    } else {
        Some(String::from_str("深度分析仅支持文件夹。"))
    }
}

/// Why no cleanup plan can be asked for: nothing listed, or on the drive list.
pub fn cleanup_plan_refusal(mode: ViewMode, listed: usize) -> (r: Option<String>)
    ensures
        (listed == 0 || mode == ViewMode::Home) ==> (r matches Some(m) && m@ == "请先扫描目录或执行全盘扫描。"@),
        !(listed == 0 || mode == ViewMode::Home) ==> r is None,
{
    if listed == 0 || mode == ViewMode::Home {
        Some(String::from_str("请先扫描目录或执行全盘扫描。"))
    } else {
        None
    }
}

/// The status shown while a folder gets its deep scan.
pub open spec fn deep_scan_status_text(name: Seq<char>) -> Seq<char> {
    "正在深层扫描「"@ + name + "」的目录结构..."@
}

/// The status shown while a folder gets its deep scan.
pub fn deep_scan_status(name: &str) -> (s: String)
    ensures
        s@ == deep_scan_status_text(name@),
{
    let mut s = String::from_str("正在深层扫描「");
    push_str(&mut s, name);
    push_str(&mut s, "」的目录结构...");
    s
}

/// The line shown after a connection test, with the time it took.
pub open spec fn connection_test_text(result: Result<String, String>, timed: bool, elapsed: Seq<char>) -> Seq<char> {
    (match result {
        Ok(m) => "连接成功: "@ + m@,
        Err(e) => "连接失败: "@ + e@,
    }) + elapsed_tail(timed, elapsed)
}

/// The line shown after a connection test.
pub fn connection_test_result(result: Result<String, String>, timed: bool, elapsed: &str) -> (s: String)
    ensures
        s@ == connection_test_text(result, timed, elapsed@),
{
    let mut s = match result {
        Ok(m) => {
            let mut s = String::from_str("连接成功: ");
            push_str(&mut s, m.as_str());
            s
        },
        Err(e) => {
            let mut s = String::from_str("连接失败: ");
            push_str(&mut s, e.as_str());
            s
        },
    };
    append_elapsed(s, timed, elapsed)
}

} // verus!
