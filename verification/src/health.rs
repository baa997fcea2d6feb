//! The interactive drive health check: the diagnostic context built for the AI, the folders
//! scanned deeper, the AI rounds and the final cleanup plan, as a state machine whose outside
//! work (probing and scanning folders, asking the AI, reading the cancel flag) its caller does.
use vstd::prelude::*;
use crate::ai::{final_report, reply_result, text_result, views, HealthCheckReply, ReplySpec};
use crate::entries::{ScanEntry, ScanNode};
use crate::rank::{is_ranking, lemma_is_the_ranking, rank, ranking, LargestFirst};
use crate::report::{
    ai_round_status_text, append_skipped_health_check_scope, deep_scan_status_text,
    health_check_ai_round_status, health_check_deep_scan_status, skipped_scope_text,
};
use crate::structure::{
    cut_ok, diagnostic_doc, diagnostic_rag_fits, diagnostic_raw, format_diagnostic_tree_rag,
    format_scan_tree_diagnostic_rag, full_scan_doc, full_scan_ok, scan_tree_rag_fits, size_sums,
    sizes, sum, tree_sums_fit,
};
use crate::text::{dec, push_dec, push_str};

verus! {

/// A folder of at least this many bytes is always scanned deeper at the start.
pub const DEEP_TARGET_MIN_BYTES: u64 = 1073741824;

/// At most this many folders are scanned deeper at the start of a health check.
pub const HEALTH_CHECK_INITIAL_SCOPE_BUDGET: usize = 24;

/// The start of a health check goes at most this many levels deep.
pub const HEALTH_CHECK_INITIAL_MAX_DEPTH: u32 = 4;

/// A folder worth scanning deeper: at least 1 GiB, or at least 2% of the total.
pub open spec fn deep_candidate(e: ScanEntry, total: nat) -> bool {
    e.is_dir && (e.size >= DEEP_TARGET_MIN_BYTES || (total > 0 && 50 * e.size >= total))
}

/// The positions of the candidates among the first `k` entries.
pub open spec fn candidates_upto(es: Seq<ScanEntry>, k: int) -> Seq<usize>
    decreases k,
{
    if k <= 0 {
        Seq::empty()
    } else if deep_candidate(es[k - 1], sum(sizes(es))) {
        candidates_upto(es, k - 1).push((k - 1) as usize)
    } else {
        candidates_upto(es, k - 1)
    }
}

/// The candidates' sizes as keys ordered larger first.
pub open spec fn candidate_keys(es: Seq<ScanEntry>) -> Seq<LargestFirst> {
    let cand = candidates_upto(es, es.len() as int);
    Seq::new(cand.len(), |j: int| LargestFirst(es[cand[j] as int].size))
}

/// The folders scanned deeper below a list: the paths of the 6 largest candidates (ties
/// in list order).
pub open spec fn deep_targets(es: Seq<ScanEntry>) -> Seq<Seq<char>> {
    let cand = candidates_upto(es, es.len() as int);
    let o = ranking(candidate_keys(es));
    Seq::new(
        if cand.len() <= 6 {
            cand.len()
        } else {
            6
        },
        |k: int| es[cand[o[k] as int] as int].path@,
    )
}

/// The candidate positions lie within the list.
pub proof fn lemma_candidates_upto(es: Seq<ScanEntry>, k: int)
    requires
        0 <= k <= es.len(),
    ensures
        candidates_upto(es, k).len() <= k,
        forall|j: int| 0 <= j < candidates_upto(es, k).len() ==> #[trigger] candidates_upto(es, k)[j] < k,
    decreases k,
{
    if k > 0 {
        lemma_candidates_upto(es, k - 1);
    }
}

/// The candidate positions among the first `k` entries rise strictly, each holds a candidate,
/// and every candidate among them is listed.
pub proof fn lemma_candidates_members(es: Seq<ScanEntry>, k: int)
    requires
        0 <= k <= es.len() <= usize::MAX,
    ensures
        forall|a: int, b: int|
            0 <= a < b < candidates_upto(es, k).len() ==> #[trigger] candidates_upto(es, k)[a]
                < #[trigger] candidates_upto(es, k)[b],
        forall|a: int|
            0 <= a < candidates_upto(es, k).len() ==> deep_candidate(
                es[#[trigger] candidates_upto(es, k)[a] as int],
                sum(sizes(es)),
            ),
        forall|x: int|
            0 <= x < k && deep_candidate(es[x], sum(sizes(es))) ==> exists|c: int|
                0 <= c < candidates_upto(es, k).len() && #[trigger] candidates_upto(es, k)[c] == x,
    decreases k,
{
    lemma_candidates_upto(es, k);
    if k > 0 {
        lemma_candidates_members(es, k - 1);
        lemma_candidates_upto(es, k - 1);
        let prev = candidates_upto(es, k - 1);
        let cur = candidates_upto(es, k);
        assert forall|x: int| 0 <= x < k && deep_candidate(es[x], sum(sizes(es))) implies exists|c: int|
            0 <= c < cur.len() && #[trigger] cur[c] == x by {
            if x == k - 1 {
                assert(cur[prev.len() as int] == x);
            } else {
                let c = choose|c: int| 0 <= c < prev.len() && #[trigger] prev[c] == x;
                assert(cur[c] == prev[c]);
            }
        }
    }
}

/// The entries other than `i` at least as large as it.
pub open spec fn as_large_as(es: Seq<ScanEntry>, i: int) -> Set<int> {
    Set::new(|j: int| 0 <= j < es.len() && j != i && es[j].size >= es[i].size)
}

/// A folder of at least 1 GiB, or of at least 2% of the total, is scanned deeper whenever
/// fewer than six other entries are as large as it.
pub proof fn lemma_big_folder_targeted(es: Seq<ScanEntry>, i: int)
    requires
        es.len() <= usize::MAX,
        0 <= i < es.len(),
        es[i].is_dir,
        es[i].size >= 1073741824 || (sum(sizes(es)) > 0 && 50 * es[i].size >= sum(sizes(es))),
        as_large_as(es, i).len() < 6,
    ensures
        deep_targets(es).contains(es[i].path@),
{
    let n = es.len() as int;
    let cand = candidates_upto(es, n);
    let keys = candidate_keys(es);
    lemma_candidates_members(es, n);
    lemma_candidates_upto(es, n);
    assert(deep_candidate(es[i], sum(sizes(es))));
    let c = choose|c: int| 0 <= c < cand.len() && #[trigger] cand[c] == i;
    crate::rank::lemma_ranking_exists(keys);
    let o = ranking(keys);
    crate::rank::lemma_ranking_onto(keys, o, c);
    let p = choose|p: int| 0 <= p < o.len() && o[p] == c;
    let big = as_large_as(es, i);
    vstd::set_lib::lemma_int_range(0, n);
    assert(big.subset_of(vstd::set_lib::set_int_range(0, n)));
    vstd::set_lib::lemma_len_subset(big, vstd::set_lib::set_int_range(0, n));
    if p >= 6 {
        let w = Seq::new(6, |q: int| cand[o[q] as int] as int);
        assert forall|a: int, b: int| 0 <= a < w.len() && 0 <= b < w.len() && a != b implies w[a] != w[b] by {
            if a < b {
                assert(crate::rank::before(keys, o[a] as int, o[b] as int));
                crate::rank::lemma_before(keys, o[a] as int, o[a] as int, 0);
            } else {
                assert(crate::rank::before(keys, o[b] as int, o[a] as int));
                crate::rank::lemma_before(keys, o[b] as int, o[b] as int, 0);
            }
            assert(o[a] != o[b]);
            if (o[a] as int) < (o[b] as int) {
                assert(cand[o[a] as int] < cand[o[b] as int]);
            } else {
                assert(cand[o[b] as int] < cand[o[a] as int]);
            }
        }
        assert forall|x: int| w.to_set().contains(x) implies big.contains(x) by {
            let q = choose|q: int| 0 <= q < w.len() && w[q] == x;
            assert(crate::rank::before(keys, o[q] as int, o[p] as int));
            crate::rank::lemma_before(keys, o[q] as int, o[q] as int, 0);
            assert(o[q] != o[p]);
            if (o[q] as int) < c {
                assert(cand[o[q] as int] < cand[c]);
            } else {
                assert(cand[c] < cand[o[q] as int]);
            }
            assert(keys[o[q] as int].0 >= keys[c].0);
        }
        w.unique_seq_to_set();
        vstd::set_lib::lemma_len_subset(w.to_set(), big);
        assert(false);
    }
    assert(deep_targets(es)[p] == es[i].path@);
}

/// The folders to scan deeper below a list of entries.
pub fn health_check_initial_deep_targets(entries: &Vec<ScanEntry>) -> (t: Vec<String>)
    requires
        sum(sizes(entries@)) <= u64::MAX,
    ensures
        t@.len() <= 6,
        views(t@) == deep_targets(entries@),
{
    let ghost es = entries@;
    let (total, _) = size_sums(entries);
    let mut cand: Vec<usize> = Vec::new();
    let mut i: usize = 0;
    while i < entries.len()
        invariant
            i <= es.len(),
            es == entries@,
            total == sum(sizes(es)),
            cand@ == candidates_upto(es, i as int),
        decreases es.len() - i,
    {
        let e = &entries[i];
        if e.is_dir && (e.size >= DEEP_TARGET_MIN_BYTES || (total > 0 && 50 * (e.size as u128)
            >= total as u128)) {
            cand.push(i);
        }
        i += 1;
    }
    proof {
        lemma_candidates_upto(es, es.len() as int);
    }
    let mut keys: Vec<LargestFirst> = Vec::new();
    let mut j: usize = 0;
    while j < cand.len()
        invariant
            j <= cand@.len(),
            es == entries@,
            cand@ == candidates_upto(es, es.len() as int),
            forall|x: int| 0 <= x < cand@.len() ==> #[trigger] cand@[x] < es.len(),
            keys@ == candidate_keys(es).take(j as int),
        decreases cand@.len() - j,
    {
        keys.push(LargestFirst(entries[cand[j]].size));
        assert(keys@ == candidate_keys(es).take(j + 1));
        j += 1;
    }
    assert(keys@ == candidate_keys(es));
    let order = rank(&keys);
    proof {
        lemma_is_the_ranking(keys@, order@);
    }
    let m = if cand.len() <= 6 {
        cand.len()
    } else {
        6
    };
    let mut t: Vec<String> = Vec::new();
    let mut k: usize = 0;
    while k < m
        invariant
            k <= m <= cand@.len() == order@.len(),
            m == (if cand@.len() <= 6 { cand@.len() } else { 6 }),
            es == entries@,
            cand@ == candidates_upto(es, es.len() as int),
            forall|x: int| 0 <= x < cand@.len() ==> #[trigger] cand@[x] < es.len(),
            is_ranking(candidate_keys(es), order@),
            order@ == ranking(candidate_keys(es)),
            views(t@) == deep_targets(es).take(k as int),
        decreases m - k,
    {
        let ghost before = t@;
        let p = entries[cand[order[k]]].path.clone();
        t.push(p);
        assert(t@ == before.push(p));
        assert(views(t@) =~= views(before).push(p@));
        assert(views(t@) == deep_targets(es).take(k + 1));
        k += 1;
    }
    assert(deep_targets(es).take(m as int) == deep_targets(es));
    t
}

/// The scope of one scanned folder in the diagnostic context: a heading, then the folder's
/// diagnostic document.
pub open spec fn scope_text(mode: Seq<char>, round: nat, path: Seq<char>, es: Seq<ScanEntry>) -> Seq<char> {
    "\n\n## "@ + mode + " round="@ + dec(round) + " path=\""@ + path + "\"\n\n"@ + diagnostic_doc(
        path,
        es,
        mode,
    )
}

/// Appends the scope of one scanned folder to the diagnostic context.
#[verifier::spinoff_prover]
pub fn append_health_check_scope(rag: &mut String, scan_mode: &str, round: u32, path: &str, entries: &Vec<ScanEntry>)
    requires
        sum(sizes(entries@)) <= u64::MAX,
        cut_ok(diagnostic_raw(path@, entries@, scan_mode@)),
    ensures
        final(rag)@ == old(rag)@ + scope_text(scan_mode@, round as nat, path@, entries@),
{
    push_str(rag, "\n\n## ");
    push_str(rag, scan_mode);
    push_str(rag, " round=");
    push_dec(rag, round as u128);
    push_str(rag, " path=\"");
    push_str(rag, path);
    push_str(rag, "\"\n\n");
    let d = format_diagnostic_tree_rag(path, entries, scan_mode);
    push_str(rag, d.as_str());
}

/// The health report followed by its cleanup plan, or by a note that the plan failed.
pub open spec fn finalized_text(report: Seq<char>, cleanup: Result<Seq<char>, Seq<char>>) -> Seq<char> {
    match cleanup {
        Ok(c) => report + "\n\n"@ + c,
        Err(e) => report + "\n\n## 清理计划\n清理计划生成失败："@ + e
            + "\n\n## 执行说明\n请先查看占用报告，确认路径后再手动处理。"@,
    }
}

/// The final text of a health check: the report and its cleanup plan.
pub fn finalize_health_check_report(report: &str, cleanup: Result<String, String>) -> (s: String)
    ensures
        s@ == finalized_text(report@, text_result(cleanup)),
{
    let mut s = String::new();
    push_str(&mut s, report);
    match cleanup {
        Ok(c) => {
            push_str(&mut s, "\n\n");
            push_str(&mut s, c.as_str());
        },
        Err(e) => {
            push_str(&mut s, "\n\n## 清理计划\n清理计划生成失败：");
            push_str(&mut s, e.as_str());
            push_str(&mut s, "\n\n## 执行说明\n请先查看占用报告，确认路径后再手动处理。");
        },
    }
    s
}

/// `已完成第一层扫描，共 {n} 项。\n正在准备健康检查数据...`.
pub open spec fn started_text(n: nat) -> Seq<char> {
    "已完成第一层扫描，共 "@ + dec(n) + " 项。\n正在准备健康检查数据..."@
}

/// The progress line of one of the first deep scans.
pub open spec fn initial_scan_text(depth: nat, index: nat, total: nat, path: Seq<char>) -> Seq<char> {
    "正在递归生成诊断树，第 "@ + dec(depth) + " 层 "@ + dec(index) + "/"@ + dec(total) + "："@ + path
}

/// The progress line when the AI asks for `n` more paths.
pub open spec fn need_paths_text(n: nat) -> Seq<char> {
    "AI 请求继续深挖 "@ + dec(n) + " 个路径，正在准备扫描..."@
}

/// The progress line after the `appended`-th requested path of `total` was added.
pub open spec fn appended_text(appended: nat, total: nat) -> Seq<char> {
    "已追加第 "@ + dec(appended) + "/"@ + dec(total) + " 个深挖路径。\n正在准备下一轮 AI 判断..."@
}

/// The progress line when none of the requested paths could be scanned.
pub open spec fn no_paths_text() -> Seq<char> {
    "AI 请求的深挖路径无可扫描项，正在强制生成报告..."@
}

/// The progress line before the last, forced AI round.
pub open spec fn final_round_text() -> Seq<char> {
    "正在请求最终健康检查报告..."@
}

/// The progress line before the cleanup plan is asked for.
pub open spec fn cleanup_text() -> Seq<char> {
    "正在基于健康检查报告生成清理计划..."@
}

/// The error of a cancelled health check.
pub open spec fn interrupted_text() -> Seq<char> {
    "分析已打断"@
}

/// One level of the first deep scans, as plain values.
pub struct FrameView {
    pub targets: Seq<Seq<char>>,
    pub index: nat,
    pub depth: nat,
}

/// Where a health check stands, as plain values.
pub enum StageView {
    /// A folder of the first deep scans is probed, or (`scanning`) scanned.
    Initial { scanning: bool },
    /// The cancel flag is read before AI round `round`.
    RoundCancel { round: nat },
    /// The AI answers round `round`.
    RoundAnswer { round: nat },
    /// A path the AI asked for in round `round` is probed, or (`scanning`) scanned.
    Request { round: nat, requested: Seq<Seq<char>>, index: nat, appended: nat, scanning: bool },
    /// The AI answers a round that must give the report.
    Forced,
    /// The cleanup plan of `report` is asked for.
    Cleanup { report: Seq<char> },
    /// The health check is over.
    Done,
}

/// A health check as plain values.
pub struct CheckView {
    pub root: Seq<char>,
    pub rag: Seq<char>,
    pub scanned: Seq<Seq<char>>,
    pub budget: nat,
    pub frames: Seq<FrameView>,
    pub stage: StageView,
    pub pending: Seq<char>,
}

/// What the caller is asked to do next, as plain values.
pub enum CommandView {
    Probe(Seq<char>),
    Scan(Seq<char>),
    Ask { round: nat, force_report: bool },
    PlanCleanup(Seq<char>),
    CheckCancel,
    Finish(Result<Seq<char>, Seq<char>>),
}

/// The progress lines to show, then the next command, as plain values.
pub struct StepView {
    pub progress: Seq<Seq<char>>,
    pub command: CommandView,
}

/// What the caller found, as plain values.
pub enum EventView {
    Probed { cancelled: bool, eligible: bool, key: Seq<char> },
    Scanned(Result<Seq<ScanEntry>, Seq<char>>),
    Answered(Result<ReplySpec, Seq<char>>),
    Planned(Result<Seq<char>, Seq<char>>),
    Cancel(bool),
}

/// The health check ends with `r`.
pub open spec fn finish(v: CheckView, r: Result<Seq<char>, Seq<char>>, progress: Seq<Seq<char>>) -> (CheckView, StepView) {
    (CheckView { stage: StageView::Done, ..v }, StepView { progress, command: CommandView::Finish(r) })
}

/// The cleanup plan of `report` is asked for.
pub open spec fn finalize(v: CheckView, report: Seq<char>, progress: Seq<Seq<char>>) -> (CheckView, StepView) {
    (
        CheckView { stage: StageView::Cleanup { report }, ..v },
        StepView { progress: progress.push(cleanup_text()), command: CommandView::PlanCleanup(report) },
    )
}

/// The last AI round, which must give the report.
pub open spec fn final_force(v: CheckView, progress: Seq<Seq<char>>) -> (CheckView, StepView) {
    (
        CheckView { stage: StageView::Forced, ..v },
        StepView {
            progress: progress.push(final_round_text()),
            command: CommandView::Ask { round: 4, force_report: true },
        },
    )
}

/// AI round `round` begins with reading the cancel flag; after round 3 comes the last one.
pub open spec fn begin_round(v: CheckView, round: nat, progress: Seq<Seq<char>>) -> (CheckView, StepView) {
    if round <= 3 {
        (CheckView { stage: StageView::RoundCancel { round }, ..v }, StepView { progress, command: CommandView::CheckCancel })
    } else {
        final_force(v, progress)
    }
}

/// Moving on in the first deep scans: levels whose folders are all done close, and the next
/// folder is probed; with no scan budget or no level left, the AI rounds begin.
pub open spec fn advance_initial(v: CheckView, progress: Seq<Seq<char>>) -> (CheckView, StepView)
    decreases v.frames.len(),
{
    if v.budget == 0 || v.frames.len() == 0 {
        begin_round(CheckView { frames: Seq::empty(), ..v }, 1, progress)
    } else {
        let top = v.frames.last();
        if top.index >= top.targets.len() {
            advance_initial(CheckView { frames: v.frames.drop_last(), ..v }, progress)
        } else {
            (
                CheckView { stage: StageView::Initial { scanning: false }, ..v },
                StepView { progress, command: CommandView::Probe(top.targets[top.index as int]) },
            )
        }
    }
}

/// Moving on among the paths the AI asked for: the next one is probed; after the last, the
/// next round begins, or, when none could be scanned, the report is forced.
pub open spec fn advance_request(v: CheckView, progress: Seq<Seq<char>>) -> (CheckView, StepView) {
    match v.stage {
        StageView::Request { round, requested, index, appended, .. } => {
            if index < requested.len() {
                (
                    CheckView {
                        stage: StageView::Request { round, requested, index, appended, scanning: false },
                        ..v
                    },
                    StepView { progress, command: CommandView::Probe(requested[index as int]) },
                )
            } else if appended == 0 {
                (
                    CheckView { stage: StageView::Forced, ..v },
                    StepView {
                        progress: progress.push(no_paths_text()),
                        command: CommandView::Ask { round: round + 1, force_report: true },
                    },
                )
            } else {
                begin_round(v, round + 1, progress)
            }
        },
        _ => (v, StepView { progress, command: CommandView::CheckCancel }),
    }
}

/// The top level of the first deep scans with its next folder's place advanced.
pub open spec fn bump_top(fs: Seq<FrameView>) -> Seq<FrameView> {
    let top = fs.last();
    fs.drop_last().push(FrameView { index: top.index + 1, ..top })
}

/// The start of a health check: the diagnostic context of the scan tree, or of the first
/// level with up to 24 folders scanned deeper first; the root counts as scanned.
pub open spec fn start_view(root: Seq<char>, root_key: Seq<char>, es: Seq<ScanEntry>, tree: Option<ScanNode>) -> (CheckView, StepView) {
    let rag = match tree {
        Some(t) => full_scan_doc(t, "health_check_full_tree"@),
        None => diagnostic_doc(root, es, "health_check_root"@),
    };
    let v = CheckView {
        root,
        rag,
        scanned: seq![root_key],
        budget: HEALTH_CHECK_INITIAL_SCOPE_BUDGET as nat,
        frames: Seq::empty(),
        stage: StageView::Done,
        pending: Seq::empty(),
    };
    let progress = seq![started_text(es.len())];
    match tree {
        Some(_) => begin_round(v, 1, progress),
        None => advance_initial(
            CheckView { frames: seq![FrameView { targets: deep_targets(es), index: 0, depth: 1 }], ..v },
            progress,
        ),
    }
}

/// One step of a health check: what the caller found moves the health check on.
pub open spec fn next(v: CheckView, e: EventView) -> (CheckView, StepView) {
    let none = Seq::<Seq<char>>::empty();
    match v.stage {
        StageView::Initial { scanning } => {
            let top = v.frames.last();
            let path = top.targets[top.index as int];
            if !scanning {
                match e {
                    EventView::Probed { cancelled, eligible, key } => {
                        if cancelled {
                            begin_round(CheckView { frames: Seq::empty(), ..v }, 1, none)
                        } else if !eligible || v.scanned.contains(key) {
                            advance_initial(CheckView { frames: bump_top(v.frames), ..v }, none)
                        } else {
                            (
                                CheckView { stage: StageView::Initial { scanning: true }, pending: key, ..v },
                                StepView {
                                    progress: seq![initial_scan_text(top.depth, top.index + 1, top.targets.len(), path)],
                                    command: CommandView::Scan(path),
                                },
                            )
                        }
                    },
                    _ => (v, StepView { progress: none, command: CommandView::CheckCancel }),
                }
            } else {
                match e {
                    EventView::Scanned(result) => {
                        let v1 = CheckView {
                            budget: (v.budget - 1) as nat,
                            scanned: v.scanned.push(v.pending),
                            frames: bump_top(v.frames),
                            ..v
                        };
                        match result {
                            Ok(es) => {
                                let v2 = CheckView {
                                    rag: v.rag + scope_text("health_check_initial_child"@, top.depth, path, es),
                                    ..v1
                                };
                                if top.depth + 1 <= HEALTH_CHECK_INITIAL_MAX_DEPTH && v2.budget > 0 {
                                    advance_initial(
                                        CheckView {
                                            frames: v2.frames.push(FrameView { targets: deep_targets(es), index: 0, depth: top.depth + 1 }),
                                            ..v2
                                        },
                                        none,
                                    )
                                } else {
                                    advance_initial(v2, none)
                                }
                            },
                            Err(why) => advance_initial(
                                CheckView { rag: v.rag + skipped_scope_text(top.depth, path, why), ..v1 },
                                none,
                            ),
                        }
                    },
                    _ => (v, StepView { progress: none, command: CommandView::CheckCancel }),
                }
            }
        },
        StageView::RoundCancel { round } => match e {
            EventView::Cancel(cancelled) => if cancelled {
                finish(v, Err(interrupted_text()), none)
            } else {
                (
                    CheckView { stage: StageView::RoundAnswer { round }, ..v },
                    StepView {
                        progress: seq![ai_round_status_text(round, round == 3)],
                        command: CommandView::Ask { round, force_report: round == 3 },
                    },
                )
            },
            _ => (v, StepView { progress: none, command: CommandView::CheckCancel }),
        },
        StageView::RoundAnswer { round } => match e {
            EventView::Answered(r) => match r {
                Err(why) => finish(v, Err(why), none),
                Ok(ReplySpec::Report(report)) => finalize(v, report, none),
                Ok(ReplySpec::NeedPaths(paths)) => if round == 3 {
                    begin_round(v, round + 1, none)
                } else {
                    let requested = if paths.len() <= 6 { paths } else { paths.take(6) };
                    advance_request(
                        CheckView {
                            stage: StageView::Request { round, requested, index: 0, appended: 0, scanning: false },
                            ..v
                        },
                        seq![need_paths_text(paths.len())],
                    )
                },
            },
            _ => (v, StepView { progress: none, command: CommandView::CheckCancel }),
        },
        StageView::Request { round, requested, index, appended, scanning } => {
            let path = requested[index as int];
            if !scanning {
                match e {
                    EventView::Probed { eligible, key, .. } => {
                        if !eligible || v.scanned.contains(key) {
                            advance_request(
                                CheckView {
                                    stage: StageView::Request { round, requested, index: index + 1, appended, scanning: false },
                                    ..v
                                },
                                none,
                            )
                        } else {
                            (
                                CheckView {
                                    stage: StageView::Request { round, requested, index, appended, scanning: true },
                                    pending: key,
                                    ..v
                                },
                                StepView {
                                    progress: seq![deep_scan_status_text(round, index + 1, requested.len(), path)],
                                    command: CommandView::Scan(path),
                                },
                            )
                        }
                    },
                    _ => (v, StepView { progress: none, command: CommandView::CheckCancel }),
                }
            } else {
                match e {
                    EventView::Scanned(result) => {
                        let v1 = CheckView {
                            scanned: v.scanned.push(v.pending),
                            stage: StageView::Request { round, requested, index: index + 1, appended: appended + 1, scanning: false },
                            ..v
                        };
                        match result {
                            Ok(es) => advance_request(
                                CheckView {
                                    rag: v.rag + scope_text("health_check_requested_child"@, round, path, es),
                                    ..v1
                                },
                                seq![appended_text(appended + 1, requested.len())],
                            ),
                            Err(why) => advance_request(
                                CheckView { rag: v.rag + skipped_scope_text(round, path, why), ..v1 },
                                none,
                            ),
                        }
                    },
                    _ => (v, StepView { progress: none, command: CommandView::CheckCancel }),
                }
            }
        },
        StageView::Forced => match e {
            EventView::Answered(r) => match r {
                Err(why) => finish(v, Err(why), none),
                Ok(reply) => match final_report(reply) {
                    Ok(report) => finalize(v, report, none),
                    Err(why) => finish(v, Err(why), none),
                },
            },
            _ => (v, StepView { progress: none, command: CommandView::CheckCancel }),
        },
        StageView::Cleanup { report } => match e {
            EventView::Planned(r) => finish(v, Ok(finalized_text(report, r)), none),
            _ => (v, StepView { progress: none, command: CommandView::CheckCancel }),
        },
        StageView::Done => (v, StepView { progress: none, command: CommandView::CheckCancel }),
    }
}

/// The levels of the first deep scans are well formed: at most 4, level `i` at depth
/// `i + 1`, each with at most 6 folders and its next place within them.
pub open spec fn frames_wf(fs: Seq<FrameView>) -> bool {
    &&& fs.len() <= HEALTH_CHECK_INITIAL_MAX_DEPTH
    &&& forall|i: int|
        0 <= i < fs.len() ==> (#[trigger] fs[i]).depth == i + 1 && fs[i].index <= fs[i].targets.len()
            && fs[i].targets.len() <= 6
}

/// A health check is well formed: its budget, its levels and its stage agree.
pub open spec fn wf(v: CheckView) -> bool {
    &&& v.budget <= HEALTH_CHECK_INITIAL_SCOPE_BUDGET
    &&& frames_wf(v.frames)
    &&& match v.stage {
        StageView::Initial { .. } => v.frames.len() > 0 && v.frames.last().index
            < v.frames.last().targets.len() && v.budget > 0,
        StageView::RoundCancel { round } => v.frames.len() == 0 && 1 <= round <= 3,
        StageView::RoundAnswer { round } => v.frames.len() == 0 && 1 <= round <= 3,
        StageView::Request { round, requested, index, appended, .. } => v.frames.len() == 0 && 1
            <= round <= 2 && requested.len() <= 6 && index < requested.len() && appended <= index,
        _ => v.frames.len() == 0,
    }
}

/// The documents a health check starts with can be cut at the byte limit: the whole-tree
/// document when there is a scan tree, the root's diagnostic document otherwise.
pub open spec fn start_fits_view(root: Seq<char>, es: Seq<ScanEntry>, tree: Option<ScanNode>) -> bool {
    match tree {
        Some(t) => full_scan_ok(t, "health_check_full_tree"@),
        None => cut_ok(diagnostic_raw(root, es, "health_check_root"@)),
    }
}

/// The folder being scanned and the scan mode its scope is recorded under.
pub open spec fn scan_place(v: CheckView) -> (Seq<char>, Seq<char>) {
    match v.stage {
        StageView::Initial { .. } => (
            v.frames.last().targets[v.frames.last().index as int],
            "health_check_initial_child"@,
        ),
        StageView::Request { requested, index, .. } => (requested[index as int], "health_check_requested_child"@),
        _ => (Seq::empty(), Seq::empty()),
    }
}

/// The event the health check waits for: a probe while probing, a scan result (whose sizes sum
/// within 64 bits) while scanning, the cancel flag, an AI answer, or the cleanup plan.
pub open spec fn expects(v: CheckView, e: EventView) -> bool {
    let scan_ok = match e {
        EventView::Scanned(Ok(es)) => sum(sizes(es)) <= u64::MAX && cut_ok(
            diagnostic_raw(scan_place(v).0, es, scan_place(v).1),
        ),
        EventView::Scanned(Err(_)) => true,
        _ => false,
    };
    match v.stage {
        StageView::Initial { scanning } => if scanning {
            scan_ok
        } else {
            e is Probed
        },
        StageView::Request { scanning, .. } => if scanning {
            scan_ok
        } else {
            e is Probed
        },
        StageView::RoundCancel { .. } => e is Cancel,
        StageView::RoundAnswer { .. } => e is Answered,
        StageView::Forced => e is Answered,
        StageView::Cleanup { .. } => e is Planned,
        StageView::Done => false,
    }
}

/// One level of the first deep scans.
struct Frame {
    targets: Vec<String>,
    index: usize,
    depth: u32,
}

impl Frame {
    /// The level as plain values.
    closed spec fn view(&self) -> FrameView {
        FrameView { targets: views(self.targets@), index: self.index as nat, depth: self.depth as nat }
    }
}

/// Where a health check stands.
enum Stage {
    Initial { scanning: bool },
    RoundCancel { round: u32 },
    RoundAnswer { round: u32 },
    Request { round: u32, requested: Vec<String>, index: usize, appended: usize, scanning: bool },
    Forced,
    Cleanup { report: String },
    Done,
}

/// The stage as plain values.
closed spec fn stage_view(s: Stage) -> StageView {
    match s {
        Stage::Initial { scanning } => StageView::Initial { scanning },
        Stage::RoundCancel { round } => StageView::RoundCancel { round: round as nat },
        Stage::RoundAnswer { round } => StageView::RoundAnswer { round: round as nat },
        Stage::Request { round, requested, index, appended, scanning } => StageView::Request {
            round: round as nat,
            requested: views(requested@),
            index: index as nat,
            appended: appended as nat,
            scanning,
        },
        Stage::Forced => StageView::Forced,
        Stage::Cleanup { report } => StageView::Cleanup { report: report@ },
        Stage::Done => StageView::Done,
    }
}

/// What the caller is asked to do next.
pub enum Command {
    /// Read the cancel flag; unless it is set, tell whether `path` lies under the root and
    /// is a folder, and give its key (the path as a path value, for comparison).
    Probe { path: String },
    /// Scan the folder `path`.
    Scan { path: String },
    /// Ask the AI for one health-check round over the current context.
    Ask { round: u32, force_report: bool },
    /// Ask the AI for the cleanup plan of the report.
    PlanCleanup { report: String },
    /// Read the cancel flag.
    CheckCancel,
    /// The health check is over.
    Finish { result: Result<String, String> },
}

/// The progress lines to show, then the next command.
pub struct Step {
    pub progress: Vec<String>,
    pub command: Command,
}

/// What the caller found.
pub enum Event {
    Probed { cancelled: bool, eligible: bool, key: String },
    Scanned { outcome: Result<Vec<ScanEntry>, String> },
    Answered { reply: Result<HealthCheckReply, String> },
    Planned { plan: Result<String, String> },
    Cancel { cancelled: bool },
}

impl Command {
    /// The command as plain values.
    pub open spec fn view(&self) -> CommandView {
        match self {
            Command::Probe { path } => CommandView::Probe(path@),
            Command::Scan { path } => CommandView::Scan(path@),
            Command::Ask { round, force_report } => CommandView::Ask { round: *round as nat, force_report: *force_report },
            Command::PlanCleanup { report } => CommandView::PlanCleanup(report@),
            Command::CheckCancel => CommandView::CheckCancel,
            Command::Finish { result } => CommandView::Finish(text_result(*result)),
        }
    }
}

impl Step {
    /// The step as plain values.
    pub open spec fn view(&self) -> StepView {
        StepView { progress: views(self.progress@), command: self.command.view() }
    }
}

impl Event {
    /// The event as plain values.
    pub open spec fn view(&self) -> EventView {
        match self {
            Event::Probed { cancelled, eligible, key } => EventView::Probed { cancelled: *cancelled, eligible: *eligible, key: key@ },
            Event::Scanned { outcome } => EventView::Scanned(match outcome {
                Ok(es) => Ok(es@),
                Err(e) => Err(e@),
            }),
            Event::Answered { reply } => EventView::Answered(reply_result(*reply)),
            Event::Planned { plan } => EventView::Planned(text_result(*plan)),
            Event::Cancel { cancelled } => EventView::Cancel(*cancelled),
        }
    }
}

/// A drive health check in progress.
pub struct HealthCheck {
    root: String,
    rag: String,
    scanned: Vec<String>,
    budget: usize,
    frames: Vec<Frame>,
    stage: Stage,
    pending: String,
}

impl HealthCheck {
    /// The health check as plain values.
    pub closed spec fn view(&self) -> CheckView {
        CheckView {
            root: self.root@,
            rag: self.rag@,
            scanned: views(self.scanned@),
            budget: self.budget as nat,
            frames: self.frames@.map_values(|f: Frame| f.view()),
            stage: stage_view(self.stage),
            pending: self.pending@,
        }
    }

    /// The diagnostic context the AI is asked over.
    pub fn context(&self) -> (s: &str)
        ensures
            s@ == self.view().rag,
    {
        self.rag.as_str()
    }

    /// The drive or folder checked.
    pub fn root(&self) -> (s: &str)
        ensures
            s@ == self.view().root,
    {
        self.root.as_str()
    }
}

/// Appending to a list of strings appends the view.
pub proof fn lemma_views_push(v: Seq<String>, x: String)
    ensures
        views(v.push(x)) == views(v).push(x@),
{
    assert(views(v.push(x)) =~= views(v).push(x@));
}

/// A one-element list of strings.
fn one_line(x: String) -> (v: Vec<String>)
    ensures
        views(v@) == seq![x@],
{
    let mut v: Vec<String> = Vec::new();
    v.push(x);
    proof {
        lemma_views_push(Seq::empty(), x);
        assert(views(Seq::<String>::empty()) =~= Seq::<Seq<char>>::empty());
    }
    assert(v@ == Seq::<String>::empty().push(x));
    v
}

impl HealthCheck {
    /// Ends the health check with `r`.
    fn finish_with(&mut self, r: Result<String, String>, progress: Vec<String>) -> (step: Step)
        ensures
            (final(self).view(), step.view()) == finish(old(self).view(), text_result(r), views(progress@)),
    {
        self.stage = Stage::Done;
        Step { progress, command: Command::Finish { result: r } }
    }

    /// Asks for the cleanup plan of `report`.
    fn finalize_with(&mut self, report: String, progress: Vec<String>) -> (step: Step)
        ensures
            (final(self).view(), step.view()) == finalize(old(self).view(), report@, views(progress@)),
    {
        let mut p = progress;
        let line = String::from_str("正在基于健康检查报告生成清理计划...");
        proof {
            lemma_views_push(p@, line);
        }
        p.push(line);
        self.stage = Stage::Cleanup { report: report.clone() };
        Step { progress: p, command: Command::PlanCleanup { report } }
    }

    /// Asks for the last round, which must give the report.
    fn final_force_with(&mut self, progress: Vec<String>) -> (step: Step)
        ensures
            (final(self).view(), step.view()) == final_force(old(self).view(), views(progress@)),
    {
        let mut p = progress;
        let line = String::from_str("正在请求最终健康检查报告...");
        proof {
            lemma_views_push(p@, line);
        }
        p.push(line);
        self.stage = Stage::Forced;
        Step { progress: p, command: Command::Ask { round: 4, force_report: true } }
    }

    /// Begins AI round `round`.
    fn begin_round_with(&mut self, round: u32, progress: Vec<String>) -> (step: Step)
        ensures
            (final(self).view(), step.view()) == begin_round(old(self).view(), round as nat, views(progress@)),
    {
        if round <= 3 {
            self.stage = Stage::RoundCancel { round };
            Step { progress, command: Command::CheckCancel }
        } else {
            self.final_force_with(progress)
        }
    }

    /// Moves on in the first deep scans.
    fn advance_initial_with(&mut self, progress: Vec<String>) -> (step: Step)
        requires
            frames_wf(old(self).view().frames),
        ensures
            (final(self).view(), step.view()) == advance_initial(old(self).view(), views(progress@)),
    {
        let ghost target = advance_initial(self.view(), views(progress@));
        loop
            invariant
                frames_wf(self.view().frames),
                target == advance_initial(old(self).view(), views(progress@)),
                advance_initial(self.view(), views(progress@)) == target,
            decreases self.frames@.len(),
        {
            if self.budget == 0 || self.frames.len() == 0 {
                let ghost v = self.view();
                self.frames = Vec::new();
                assert(self.view().frames =~= Seq::<FrameView>::empty());
                assert(self.view() == CheckView { frames: Seq::empty(), ..v });
                return self.begin_round_with(1, progress);
            }
            let last = self.frames.len() - 1;
            assert(self.view().frames.last() == self.frames@[last as int].view());
            if self.frames[last].index >= self.frames[last].targets.len() {
                let ghost v = self.view();
                self.frames.pop();
                assert(self.view().frames =~= v.frames.drop_last());
                assert(self.view() == CheckView { frames: v.frames.drop_last(), ..v });
                continue;
            }
            let ghost v = self.view();
            let path = self.frames[last].targets[self.frames[last].index].clone();
            self.stage = Stage::Initial { scanning: false };
            assert(self.view() == CheckView { stage: StageView::Initial { scanning: false }, ..v });
            return Step { progress, command: Command::Probe { path } };
        }
    }
}

/// `已完成第一层扫描，共 {n} 项。\n正在准备健康检查数据...`.
fn started_line(n: usize) -> (s: String)
    ensures
        s@ == started_text(n as nat),
{
    let mut s = String::new();
    push_str(&mut s, "已完成第一层扫描，共 ");
    push_dec(&mut s, n as u128);
    push_str(&mut s, " 项。\n正在准备健康检查数据...");
    s
}

/// The progress line of one of the first deep scans.
fn initial_scan_line(depth: u32, index: usize, total: usize, path: &str) -> (s: String)
    ensures
        s@ == initial_scan_text(depth as nat, index as nat, total as nat, path@),
{
    let mut s = String::new();
    push_str(&mut s, "正在递归生成诊断树，第 ");
    push_dec(&mut s, depth as u128);
    push_str(&mut s, " 层 ");
    push_dec(&mut s, index as u128);
    push_str(&mut s, "/");
    push_dec(&mut s, total as u128);
    push_str(&mut s, "：");
    push_str(&mut s, path);
    s
}

/// The progress line when the AI asks for `n` more paths.
fn need_paths_line(n: usize) -> (s: String)
    ensures
        s@ == need_paths_text(n as nat),
{
    let mut s = String::new();
    push_str(&mut s, "AI 请求继续深挖 ");
    push_dec(&mut s, n as u128);
    push_str(&mut s, " 个路径，正在准备扫描...");
    s
}

/// The progress line after a requested path was added.
fn appended_line(appended: usize, total: usize) -> (s: String)
    ensures
        s@ == appended_text(appended as nat, total as nat),
{
    let mut s = String::new();
    push_str(&mut s, "已追加第 ");
    push_dec(&mut s, appended as u128);
    push_str(&mut s, "/");
    push_dec(&mut s, total as u128);
    push_str(&mut s, " 个深挖路径。\n正在准备下一轮 AI 判断...");
    s
}

/// Whether a key is among the scanned ones.
fn contains_key(v: &Vec<String>, k: &String) -> (b: bool)
    ensures
        b == views(v@).contains(k@),
{
    let mut i: usize = 0;
    while i < v.len()
        invariant
            i <= v@.len(),
            forall|j: int| 0 <= j < i ==> v@[j]@ != k@,
        decreases v@.len() - i,
    {
        if v[i] == *k {
            assert(views(v@)[i as int] == k@);
            return true;
        }
        i += 1;
    }
    assert(!views(v@).contains(k@)) by {
        if views(v@).contains(k@) {
            let j = choose|j: int| 0 <= j < views(v@).len() && views(v@)[j] == k@;
            assert(v@[j]@ == k@);
        }
    }
    false
}

/// The option of a borrowed node, as a value.
pub open spec fn opt_node(t: Option<&ScanNode>) -> Option<ScanNode> {
    match t {
        Some(n) => Some(*n),
        None => None,
    }
}

impl HealthCheck {
    /// Moves on among the paths the AI asked for.
    fn advance_request_with(&mut self, progress: Vec<String>) -> (step: Step)
        requires
            old(self).view().stage matches StageView::Request { round, .. } && round <= 2,
        ensures
            (final(self).view(), step.view()) == advance_request(old(self).view(), views(progress@)),
    {
        let ghost v = self.view();
        let mut st = Stage::Done;
        std::mem::swap(&mut st, &mut self.stage);
        match st {
            Stage::Request { round, requested, index, appended, scanning } => {
                if index < requested.len() {
                    let path = requested[index].clone();
                    self.stage = Stage::Request { round, requested, index, appended, scanning: false };
                    assert(self.view() == CheckView {
                        stage: StageView::Request {
                            round: round as nat,
                            requested: views(requested@),
                            index: index as nat,
                            appended: appended as nat,
                            scanning: false,
                        },
                        ..v
                    });
                    Step { progress, command: Command::Probe { path } }
                } else if appended == 0 {
                    let mut p = progress;
                    let line = String::from_str("AI 请求的深挖路径无可扫描项，正在强制生成报告...");
                    proof {
                        lemma_views_push(p@, line);
                    }
                    p.push(line);
                    self.stage = Stage::Forced;
                    assert(self.view() == CheckView { stage: StageView::Forced, ..v });
                    Step { progress: p, command: Command::Ask { round: round + 1, force_report: true } }
                } else {
                    assert(self.view() == CheckView { stage: StageView::Done, ..v });
                    self.begin_round_with(round + 1, progress)
                }
            },
            _ => {
                self.stage = st;
                Step { progress, command: Command::CheckCancel }
            },
        }
    }
}

/// The stage a check waits in, without its data.
#[derive(Clone, Copy, PartialEq, Eq, Structural)]
enum Tag {
    InitialProbe,
    InitialScan,
    RoundCancel,
    RoundAnswer,
    RequestProbe,
    RequestScan,
    Forced,
    Cleanup,
    Done,
}

/// The tag of a stage.
closed spec fn tag_of(s: StageView) -> Tag {
    match s {
        StageView::Initial { scanning } => if scanning {
            Tag::InitialScan
        } else {
            Tag::InitialProbe
        },
        StageView::RoundCancel { .. } => Tag::RoundCancel,
        StageView::RoundAnswer { .. } => Tag::RoundAnswer,
        StageView::Request { scanning, .. } => if scanning {
            Tag::RequestScan
        } else {
            Tag::RequestProbe
        },
        StageView::Forced => Tag::Forced,
        StageView::Cleanup { .. } => Tag::Cleanup,
        StageView::Done => Tag::Done,
    }
}

/// An empty list of progress lines.
fn no_lines() -> (v: Vec<String>)
    ensures
        views(v@) == Seq::<Seq<char>>::empty(),
{
    let v: Vec<String> = Vec::new();
    assert(views(v@) =~= Seq::<Seq<char>>::empty());
    v
}

impl HealthCheck {
    /// The tag of the current stage.
    fn tag(&self) -> (t: Tag)
        ensures
            t == tag_of(self.view().stage),
    {
        match &self.stage {
            Stage::Initial { scanning } => if *scanning {
                Tag::InitialScan
            } else {
                Tag::InitialProbe
            },
            Stage::RoundCancel { .. } => Tag::RoundCancel,
            Stage::RoundAnswer { .. } => Tag::RoundAnswer,
            Stage::Request { scanning, .. } => if *scanning {
                Tag::RequestScan
            } else {
                Tag::RequestProbe
            },
            Stage::Forced => Tag::Forced,
            Stage::Cleanup { .. } => Tag::Cleanup,
            Stage::Done => Tag::Done,
        }
    }

    /// Advances the next place of the top level of the first deep scans.
    fn bump_top_frame(&mut self)
        requires
            old(self).view().frames.len() > 0,
            old(self).view().frames.last().index < old(self).view().frames.last().targets.len(),
            old(self).view().frames.last().targets.len() <= 6,
        ensures
            final(self).view() == (CheckView { frames: bump_top(old(self).view().frames), ..old(self).view() }),
    {
        let ghost v = self.view();
        let mut f = self.frames.pop().unwrap();
        assert(f.view() == v.frames.last());
        f.index = f.index + 1;
        let ghost fv = f.view();
        self.frames.push(f);
        assert(self.view().frames =~= bump_top(v.frames));
    }

    /// A probe during the first deep scans.
    fn on_initial_probe(&mut self, cancelled: bool, eligible: bool, key: String) -> (step: Step)
        requires
            wf(old(self).view()),
            old(self).view().stage == (StageView::Initial { scanning: false }),
        ensures
            (final(self).view(), step.view()) == next(
                old(self).view(),
                EventView::Probed { cancelled, eligible, key: key@ },
            ),
    {
        let ghost v = self.view();
        if cancelled {
            self.frames = Vec::new();
            assert(self.view().frames =~= Seq::<FrameView>::empty());
            return self.begin_round_with(1, no_lines());
        }
        let seen = contains_key(&self.scanned, &key);
        if !eligible || seen {
            self.bump_top_frame();
            proof {
                let bv = self.view();
                assert(frames_wf(bv.frames)) by {
                    assert forall|i: int| 0 <= i < bv.frames.len() implies (#[trigger] bv.frames[i]).depth == i + 1
                        && bv.frames[i].index <= bv.frames[i].targets.len() && bv.frames[i].targets.len() <= 6 by {
                        if i < bv.frames.len() - 1 {
                            assert(bv.frames[i] == v.frames[i]);
                        }
                    }
                }
            }
            return self.advance_initial_with(no_lines());
        }
        let last = self.frames.len() - 1;
        assert(self.frames@[last as int].view() == v.frames.last());
        let depth = self.frames[last].depth;
        let index = self.frames[last].index;
        let total = self.frames[last].targets.len();
        let path = self.frames[last].targets[index].clone();
        let line = initial_scan_line(depth, index + 1, total, path.as_str());
        self.stage = Stage::Initial { scanning: true };
        self.pending = key;
        assert(self.view() == CheckView { stage: StageView::Initial { scanning: true }, pending: key@, ..v });
        Step { progress: one_line(line), command: Command::Scan { path } }
    }
}

impl HealthCheck {
    /// A scan result during the first deep scans.
    #[verifier::spinoff_prover]
    fn on_initial_scan(&mut self, outcome: Result<Vec<ScanEntry>, String>) -> (step: Step)
        requires
            wf(old(self).view()),
            old(self).view().stage == (StageView::Initial { scanning: true }),
            outcome matches Ok(es) ==> sum(sizes(es@)) <= u64::MAX && cut_ok(
                diagnostic_raw(scan_place(old(self).view()).0, es@, scan_place(old(self).view()).1),
            ),
        ensures
            (final(self).view(), step.view()) == next(
                old(self).view(),
                EventView::Scanned(match outcome {
                    Ok(es) => Ok(es@),
                    Err(e) => Err(e@),
                }),
            ),
    {
        let ghost v = self.view();
        let last = self.frames.len() - 1;
        assert(self.frames@[last as int].view() == v.frames.last());
        let depth = self.frames[last].depth;
        let index = self.frames[last].index;
        let path = self.frames[last].targets[index].clone();
        self.budget = self.budget - 1;
        let k = self.pending.clone();
        let ghost sc = self.scanned@;
        self.scanned.push(k);
        proof {
            lemma_views_push(sc, k);
        }
        self.bump_top_frame();
        let ghost v1 = self.view();
        assert(v1 == CheckView {
            budget: (v.budget - 1) as nat,
            scanned: v.scanned.push(v.pending),
            frames: bump_top(v.frames),
            ..v
        });
        assert(frames_wf(v1.frames)) by {
            assert forall|i: int| 0 <= i < v1.frames.len() implies (#[trigger] v1.frames[i]).depth == i + 1
                && v1.frames[i].index <= v1.frames[i].targets.len() && v1.frames[i].targets.len() <= 6 by {
                if i < v1.frames.len() - 1 {
                    assert(v1.frames[i] == v.frames[i]);
                }
            }
        }
        match outcome {
            Ok(es) => {
                append_health_check_scope(&mut self.rag, "health_check_initial_child", depth, path.as_str(), &es);
                let ghost v2 = self.view();
                assert(v2 == CheckView {
                    rag: v.rag + scope_text("health_check_initial_child"@, depth as nat, path@, es@),
                    ..v1
                });
                if depth + 1 <= HEALTH_CHECK_INITIAL_MAX_DEPTH && self.budget > 0 {
                    let t = health_check_initial_deep_targets(&es);
                    let ghost fr = self.frames@;
                    self.frames.push(Frame { targets: t, index: 0, depth: depth + 1 });
                    let ghost v3 = self.view();
                    assert(v3.frames =~= v2.frames.push(FrameView { targets: deep_targets(es@), index: 0, depth: (depth + 1) as nat }));
                    assert(frames_wf(v3.frames)) by {
                        assert forall|i: int| 0 <= i < v3.frames.len() implies (#[trigger] v3.frames[i]).depth == i + 1
                            && v3.frames[i].index <= v3.frames[i].targets.len() && v3.frames[i].targets.len() <= 6 by {
                            if i < v3.frames.len() - 1 {
                                assert(v3.frames[i] == v2.frames[i]);
                            }
                        }
                    }
                }
                self.advance_initial_with(no_lines())
            },
            Err(why) => {
                append_skipped_health_check_scope(&mut self.rag, depth, path.as_str(), why.as_str());
                self.advance_initial_with(no_lines())
            },
        }
    }

    /// The cancel flag before an AI round.
    fn on_round_cancel(&mut self, cancelled: bool) -> (step: Step)
        requires
            wf(old(self).view()),
            old(self).view().stage is RoundCancel,
        ensures
            (final(self).view(), step.view()) == next(old(self).view(), EventView::Cancel(cancelled)),
    {
        let ghost v = self.view();
        let round: u32 = match &self.stage {
            Stage::RoundCancel { round } => *round,
            _ => 1,
        };
        if cancelled {
            return self.finish_with(Err(String::from_str("分析已打断")), no_lines());
        }
        let force = round == 3;
        let line = health_check_ai_round_status(round, force);
        self.stage = Stage::RoundAnswer { round };
        assert(self.view() == CheckView { stage: StageView::RoundAnswer { round: round as nat }, ..v });
        Step { progress: one_line(line), command: Command::Ask { round, force_report: force } }
    }

    /// The AI's answer to a round.
    fn on_round_answer(&mut self, reply: Result<HealthCheckReply, String>) -> (step: Step)
        requires
            wf(old(self).view()),
            old(self).view().stage is RoundAnswer,
        ensures
            (final(self).view(), step.view()) == next(old(self).view(), EventView::Answered(reply_result(reply))),
    {
        let ghost v = self.view();
        let round: u32 = match &self.stage {
            Stage::RoundAnswer { round } => *round,
            _ => 1,
        };
        match reply {
            Err(why) => self.finish_with(Err(why), no_lines()),
            Ok(HealthCheckReply::Report(report)) => self.finalize_with(report, no_lines()),
            Ok(HealthCheckReply::NeedPaths(paths)) => {
                if round == 3 {
                    return self.begin_round_with(4, no_lines());
                }
                let line = need_paths_line(paths.len());
                let mut requested = paths;
                let ghost all = views(requested@);
                if requested.len() > 6 {
                    requested.truncate(6);
                    assert(views(requested@) =~= all.take(6));
                }
                self.stage = Stage::Request { round, requested, index: 0, appended: 0, scanning: false };
                self.advance_request_with(one_line(line))
            },
        }
    }

    /// A probe of a path the AI asked for.
    fn on_request_probe(&mut self, eligible: bool, key: String) -> (step: Step)
        requires
            wf(old(self).view()),
            old(self).view().stage matches StageView::Request { scanning, .. } && !scanning,
        ensures
            forall|cancelled: bool|
                (final(self).view(), step.view()) == #[trigger] next(
                    old(self).view(),
                    EventView::Probed { cancelled, eligible, key: key@ },
                ),
    {
        let ghost v = self.view();
        let mut st = Stage::Done;
        std::mem::swap(&mut st, &mut self.stage);
        match st {
            Stage::Request { round, requested, index, appended, scanning } => {
                let seen = contains_key(&self.scanned, &key);
                if !eligible || seen {
                    self.stage = Stage::Request { round, requested, index: index + 1, appended, scanning: false };
                    return self.advance_request_with(no_lines());
                }
                let path = requested[index].clone();
                let line = health_check_deep_scan_status(round, index + 1, requested.len(), path.as_str());
                self.stage = Stage::Request { round, requested, index, appended, scanning: true };
                self.pending = key;
                Step { progress: one_line(line), command: Command::Scan { path } }
            },
            _ => {
                self.stage = st;
                Step { progress: no_lines(), command: Command::CheckCancel }
            },
        }
    }

    /// A scan result of a path the AI asked for.
    #[verifier::spinoff_prover]
    fn on_request_scan(&mut self, outcome: Result<Vec<ScanEntry>, String>) -> (step: Step)
        requires
            wf(old(self).view()),
            old(self).view().stage matches StageView::Request { scanning, .. } && scanning,
            outcome matches Ok(es) ==> sum(sizes(es@)) <= u64::MAX && cut_ok(
                diagnostic_raw(scan_place(old(self).view()).0, es@, scan_place(old(self).view()).1),
            ),
        ensures
            (final(self).view(), step.view()) == next(
                old(self).view(),
                EventView::Scanned(match outcome {
                    Ok(es) => Ok(es@),
                    Err(e) => Err(e@),
                }),
            ),
    {
        let ghost v = self.view();
        let mut st = Stage::Done;
        std::mem::swap(&mut st, &mut self.stage);
        match st {
            Stage::Request { round, requested, index, appended, scanning } => {
                let path = requested[index].clone();
                let total = requested.len();
                let k = self.pending.clone();
                let ghost sc = self.scanned@;
                self.scanned.push(k);
                proof {
                    lemma_views_push(sc, k);
                }
                match outcome {
                    Ok(es) => {
                        append_health_check_scope(&mut self.rag, "health_check_requested_child", round, path.as_str(), &es);
                        self.stage = Stage::Request { round, requested, index: index + 1, appended: appended + 1, scanning: false };
                        let line = appended_line(appended + 1, total);
                        self.advance_request_with(one_line(line))
                    },
                    Err(why) => {
                        append_skipped_health_check_scope(&mut self.rag, round, path.as_str(), why.as_str());
                        self.stage = Stage::Request { round, requested, index: index + 1, appended: appended + 1, scanning: false };
                        self.advance_request_with(no_lines())
                    },
                }
            },
            _ => {
                self.stage = st;
                Step { progress: no_lines(), command: Command::CheckCancel }
            },
        }
    }

    /// The AI's answer to a round that must give the report.
    fn on_forced(&mut self, reply: Result<HealthCheckReply, String>) -> (step: Step)
        requires
            old(self).view().stage is Forced,
        ensures
            (final(self).view(), step.view()) == next(old(self).view(), EventView::Answered(reply_result(reply))),
    {
        match reply {
            Err(why) => self.finish_with(Err(why), no_lines()),
            Ok(r) => {
                let ghost rs = r.spec();
                match r.into_report() {
                    Ok(report) => self.finalize_with(report, no_lines()),
                    Err(why) => self.finish_with(Err(why), no_lines()),
                }
            },
        }
    }

    /// The cleanup plan of the report.
    fn on_cleanup(&mut self, plan: Result<String, String>) -> (step: Step)
        requires
            old(self).view().stage is Cleanup,
        ensures
            (final(self).view(), step.view()) == next(old(self).view(), EventView::Planned(text_result(plan))),
    {
        let mut st = Stage::Done;
        std::mem::swap(&mut st, &mut self.stage);
        match st {
            Stage::Cleanup { report } => {
                let text = finalize_health_check_report(report.as_str(), plan);
                self.finish_with(Ok(text), no_lines())
            },
            _ => {
                self.stage = st;
                Step { progress: no_lines(), command: Command::CheckCancel }
            },
        }
    }
}

impl HealthCheck {
    /// Starts a health check of `root` (whose key is `root_key`) from its first-level
    /// entries, or from its whole scan tree when there is one.
    pub fn start(root: &str, root_key: &str, entries: &Vec<ScanEntry>, tree: Option<&ScanNode>) -> (r: (HealthCheck, Step))
        requires
            tree is None ==> sum(sizes(entries@)) <= u64::MAX,
            tree matches Some(t) ==> tree_sums_fit(*t),
            start_fits_view(root@, entries@, opt_node(tree)),
        ensures
            (r.0.view(), r.1.view()) == start_view(root@, root_key@, entries@, opt_node(tree)),
    {
        let rag = match tree {
            Some(t) => format_scan_tree_diagnostic_rag(t, "health_check_full_tree"),
            None => format_diagnostic_tree_rag(root, entries, "health_check_root"),
        };
        let mut scanned: Vec<String> = Vec::new();
        scanned.push(String::from_str(root_key));
        proof {
            lemma_views_push(Seq::empty(), scanned@[0]);
            assert(views(Seq::<String>::empty()) =~= Seq::<Seq<char>>::empty());
        }
        assert(scanned@ == Seq::<String>::empty().push(scanned@[0]));
        let mut hc = HealthCheck {
            root: String::from_str(root),
            rag,
            scanned,
            budget: HEALTH_CHECK_INITIAL_SCOPE_BUDGET,
            frames: Vec::new(),
            stage: Stage::Done,
            pending: String::new(),
        };
        assert(hc.view().frames =~= Seq::<FrameView>::empty());
        let progress = one_line(started_line(entries.len()));
        match tree {
            Some(_) => {
                let step = hc.begin_round_with(1, progress);
                (hc, step)
            },
            None => {
                let targets = health_check_initial_deep_targets(entries);
                let ghost v = hc.view();
                hc.frames.push(Frame { targets, index: 0, depth: 1 });
                assert(hc.view().frames =~= seq![FrameView { targets: deep_targets(entries@), index: 0, depth: 1 }]);
                let step = hc.advance_initial_with(progress);
                (hc, step)
            },
        }
    }

    /// Moves the health check on with what the caller found.
    pub fn resume(&mut self, event: Event) -> (step: Step)
        requires
            wf(old(self).view()),
            expects(old(self).view(), event.view()),
        ensures
            (final(self).view(), step.view()) == next(old(self).view(), event.view()),
    {
        let t = self.tag();
        match event {
            Event::Probed { cancelled, eligible, key } => {
                if t == Tag::InitialProbe {
                    self.on_initial_probe(cancelled, eligible, key)
                } else {
                    self.on_request_probe(eligible, key)
                }
            },
            Event::Scanned { outcome } => {
                if t == Tag::InitialScan {
                    self.on_initial_scan(outcome)
                } else {
                    self.on_request_scan(outcome)
                }
            },
            Event::Answered { reply } => {
                if t == Tag::RoundAnswer {
                    self.on_round_answer(reply)
                } else {
                    self.on_forced(reply)
                }
            },
            Event::Planned { plan } => self.on_cleanup(plan),
            Event::Cancel { cancelled } => self.on_round_cancel(cancelled),
        }
    }

    /// Whether the diagnostic context a health check starts with can be written: the
    /// documents in it can be cut at the byte limit.
    pub fn start_fits(root: &str, entries: &Vec<ScanEntry>, tree: Option<&ScanNode>) -> (b: bool)
        requires
            tree is None ==> sum(sizes(entries@)) <= u64::MAX,
            tree matches Some(t) ==> tree_sums_fit(*t),
        ensures
            b == start_fits_view(root@, entries@, opt_node(tree)),
    {
        match tree {
            Some(t) => scan_tree_rag_fits(t, "health_check_full_tree"),
            None => diagnostic_rag_fits(root, entries, "health_check_root"),
        }
    }

    /// The folder being scanned and the scan mode its scope is recorded under.
    fn scan_place_exec(&self) -> (r: (String, &'static str))
        requires
            wf(self.view()),
            self.view().stage is Initial || self.view().stage is Request,
        ensures
            r.0@ == scan_place(self.view()).0,
            r.1@ == scan_place(self.view()).1,
    {
        match &self.stage {
            Stage::Request { requested, index, .. } => (requested[*index].clone(), "health_check_requested_child"),
            _ => {
                let last = self.frames.len() - 1;
                let f = &self.frames[last];
                assert(f.view() == self.view().frames.last());
                (f.targets[f.index].clone(), "health_check_initial_child")
            },
        }
    }

    /// Whether the health check waits for this event (and a scan result's sizes sum within 64
    /// bits and its document can be cut at the byte limit).
    pub fn expects_event(&self, event: &Event) -> (b: bool)
        requires
            wf(self.view()),
        ensures
            b == expects(self.view(), event.view()),
    {
        let t = self.tag();
        match event {
            Event::Probed { .. } => t == Tag::InitialProbe || t == Tag::RequestProbe,
            Event::Scanned { outcome } => (t == Tag::InitialScan || t == Tag::RequestScan) && match outcome {
                Ok(es) => crate::scan::checked_size_sum(es).is_some() && {
                    let (p, m) = self.scan_place_exec();
                    diagnostic_rag_fits(p.as_str(), es, m)
                },
                Err(_) => true,
            },
            Event::Answered { .. } => t == Tag::RoundAnswer || t == Tag::Forced,
            Event::Planned { .. } => t == Tag::Cleanup,
            Event::Cancel { .. } => t == Tag::RoundCancel,
        }
    }

    /// The health check is over.
    pub fn is_done(&self) -> (b: bool)
        ensures
            b == (self.view().stage is Done),
    {
        self.tag() == Tag::Done
    }
}

/// The folders still to probe in the levels of the first deep scans.
pub open spec fn frames_left(fs: Seq<FrameView>) -> nat
    decreases fs.len(),
{
    if fs.len() == 0 {
        0
    } else {
        frames_left(fs.drop_last()) + (fs.last().targets.len() - fs.last().index) as nat
    }
}

/// The weight of the stages from AI round `round` on.
pub open spec fn round_base(round: nat) -> nat {
    if round >= 4 {
        3
    } else {
        (3 + 21 * (4 - round)) as nat
    }
}

/// A bound on the steps a check can still take: every step lowers it.
pub open spec fn measure(v: CheckView) -> nat {
    match v.stage {
        StageView::Initial { scanning } => (100 + v.budget * 1000 + 2 * frames_left(v.frames) - if scanning {
            1int
        } else {
            0int
        }) as nat,
        StageView::RoundCancel { round } => round_base(round),
        StageView::RoundAnswer { round } => round_base(round + 1) + 20,
        StageView::Request { round, requested, index, scanning, .. } => (round_base(round + 1) + 3 + 2 * (
        requested.len() - index) - if scanning {
            1int
        } else {
            0int
        }) as nat,
        StageView::Forced => 2,
        StageView::Cleanup { .. } => 1,
        StageView::Done => 0,
    }
}

/// The folders left after one more level.
pub proof fn lemma_frames_left_push(fs: Seq<FrameView>, f: FrameView)
    ensures
        frames_left(fs.push(f)) == frames_left(fs) + (f.targets.len() - f.index) as nat,
{
    assert(fs.push(f).drop_last() == fs);
}

/// Advancing the top level's place leaves one folder fewer.
pub proof fn lemma_frames_left_bump(fs: Seq<FrameView>)
    requires
        fs.len() > 0,
        fs.last().index < fs.last().targets.len(),
    ensures
        frames_left(bump_top(fs)) + 1 == frames_left(fs),
        bump_top(fs).len() == fs.len(),
        forall|i: int| 0 <= i < fs.len() - 1 ==> #[trigger] bump_top(fs)[i] == fs[i],
        bump_top(fs).last().index == fs.last().index + 1,
        bump_top(fs).last().targets == fs.last().targets,
        bump_top(fs).last().depth == fs.last().depth,
{
    let top = fs.last();
    lemma_frames_left_push(fs.drop_last(), FrameView { index: top.index + 1, ..top });
    assert(fs.drop_last().push(top) == fs);
    lemma_frames_left_push(fs.drop_last(), top);
}

/// Moving on in the first deep scans keeps the context, the scanned keys and the budget,
/// gives a well-formed check that probes a folder or reads the cancel flag, and does not
/// raise the bound beyond what the levels hold.
pub proof fn lemma_advance_initial(v: CheckView, p: Seq<Seq<char>>)
    requires
        frames_wf(v.frames),
        v.budget <= HEALTH_CHECK_INITIAL_SCOPE_BUDGET,
    ensures
        wf(advance_initial(v, p).0),
        advance_initial(v, p).0.rag == v.rag,
        advance_initial(v, p).0.scanned == v.scanned,
        advance_initial(v, p).0.budget == v.budget,
        advance_initial(v, p).0.pending == v.pending,
        advance_initial(v, p).0.root == v.root,
        advance_initial(v, p).1.progress == p,
        advance_initial(v, p).1.command is Probe || advance_initial(v, p).1.command is CheckCancel,
        !(advance_initial(v, p).0.stage is Done),
        measure(advance_initial(v, p).0) <= 100 + v.budget * 1000 + 2 * frames_left(v.frames),
        advance_initial(v, p).0.stage == (StageView::Initial { scanning: false })
            || advance_initial(v, p).0.stage == (StageView::RoundCancel { round: 1 }),
    decreases v.frames.len(),
{
    if v.budget == 0 || v.frames.len() == 0 {
    } else {
        let top = v.frames.last();
        if top.index >= top.targets.len() {
            let w = CheckView { frames: v.frames.drop_last(), ..v };
            assert(frames_wf(w.frames)) by {
                assert forall|i: int| 0 <= i < w.frames.len() implies (#[trigger] w.frames[i]).depth == i + 1
                    && w.frames[i].index <= w.frames[i].targets.len() && w.frames[i].targets.len() <= 6 by {
                    assert(w.frames[i] == v.frames[i]);
                }
            }
            assert(v.frames[v.frames.len() - 1] == top);
            lemma_advance_initial(w, p);
        }
    }
}

/// Moving on among the requested paths keeps the context and the scanned keys, gives a
/// well-formed check, and does not raise the bound beyond the paths left.
pub proof fn lemma_advance_request(v: CheckView, p: Seq<Seq<char>>)
    requires
        v.budget <= HEALTH_CHECK_INITIAL_SCOPE_BUDGET,
        v.frames.len() == 0,
        v.stage matches StageView::Request { round, requested, index, appended, .. } && 1 <= round <= 2
            && requested.len() <= 6 && index <= requested.len() && appended <= index,
    ensures
        wf(advance_request(v, p).0),
        advance_request(v, p).0.rag == v.rag,
        advance_request(v, p).0.scanned == v.scanned,
        advance_request(v, p).0.budget == v.budget,
        advance_request(v, p).0.pending == v.pending,
        advance_request(v, p).0.root == v.root,
        v.stage matches StageView::Request { round, requested, index, .. } && measure(
            advance_request(v, p).0,
        ) <= round_base(round + 1) + 3 + 2 * (requested.len() - index),
        advance_request(v, p).1.command matches CommandView::Ask { round, force_report } ==> round <= 3
            && force_report,
        !(advance_request(v, p).1.command is Scan),
        !(advance_request(v, p).1.command is Finish),
        !(advance_request(v, p).0.stage is Done),
{
}

/// The health check as it starts is well formed, has recorded only the root as scanned, asks to
/// probe a folder or to read the cancel flag, and can take at most 24112 steps (each step
/// lowers `measure`).
pub proof fn lemma_start_wf(root: Seq<char>, root_key: Seq<char>, es: Seq<ScanEntry>, tree: Option<ScanNode>)
    ensures
        wf(start_view(root, root_key, es, tree).0),
        start_view(root, root_key, es, tree).0.scanned == seq![root_key],
        start_view(root, root_key, es, tree).1.command is Probe || start_view(root, root_key, es, tree).1.command is CheckCancel,
        measure(start_view(root, root_key, es, tree).0) <= 24112,
{
    let v = CheckView {
        root,
        rag: match tree {
            Some(t) => full_scan_doc(t, "health_check_full_tree"@),
            None => diagnostic_doc(root, es, "health_check_root"@),
        },
        scanned: seq![root_key],
        budget: HEALTH_CHECK_INITIAL_SCOPE_BUDGET as nat,
        frames: Seq::empty(),
        stage: StageView::Done,
        pending: Seq::empty(),
    };
    let progress = seq![started_text(es.len())];
    if tree is None {
        let f = FrameView { targets: deep_targets(es), index: 0, depth: 1 };
        let w = CheckView { frames: seq![f], ..v };
        assert(deep_targets(es).len() <= 6);
        lemma_frames_left_push(Seq::empty(), f);
        assert(Seq::<FrameView>::empty().push(f) == seq![f]);
        lemma_advance_initial(w, progress);
    }
}

/// A text is a prefix of itself followed by more.
pub proof fn lemma_prefix_append(a: Seq<char>, b: Seq<char>)
    ensures
        a.is_prefix_of(a + b),
{
    assert((a + b).subrange(0, a.len() as int) =~= a);
}

/// What one step of a well-formed health check that gets the event it waits for keeps:
/// - the health check stays well formed, and the bound on its remaining steps drops, so every
///   check ends;
/// - the diagnostic context only grows;
/// - the scanned keys only grow; the key of the folder whose scan result arrives is recorded;
///   a folder is sent to be scanned only when its key is not yet recorded, so no folder is
///   scanned twice;
/// - the budget of the first deep scans drops by one exactly when one of their results
///   arrives, so at most 24 folders are scanned before the AI is asked;
/// - an AI round asked for is numbered 1 to 4, and from round 3 on it must give the report;
/// - the health check says it is over exactly when it finishes.
pub open spec fn step_laws(v: CheckView, e: EventView) -> bool {
    let (w, st) = next(v, e);
    &&& wf(w)
    &&& measure(w) < measure(v)
    &&& w.root == v.root
    &&& v.rag.is_prefix_of(w.rag)
    &&& e is Scanned ==> w.scanned == v.scanned.push(v.pending)
    &&& !(e is Scanned) ==> w.scanned == v.scanned
    &&& st.command is Scan ==> !w.scanned.contains(w.pending)
    &&& w.budget <= v.budget
    &&& (w.budget < v.budget <==> v.stage == (StageView::Initial { scanning: true }))
    &&& st.command matches CommandView::Ask { round, force_report } ==> 1 <= round <= 4 && (round >= 3
        ==> force_report)
    &&& (st.command is Finish <==> w.stage is Done)
}

/// The laws of a step while the first deep scans probe a folder.
#[verifier::spinoff_prover]
#[verifier::rlimit(40)]
proof fn lemma_step_initial_probe(v: CheckView, e: EventView)
    requires
        wf(v),
        expects(v, e),
        v.stage == (StageView::Initial { scanning: false }),
    ensures
        step_laws(v, e),
{
    let none = Seq::<Seq<char>>::empty();
    let top = v.frames.last();
    assert(v.frames[v.frames.len() - 1] == top);
    lemma_frames_left_bump(v.frames);
    let bumped = bump_top(v.frames);
    assert(frames_wf(bumped)) by {
        assert forall|i: int| 0 <= i < bumped.len() implies (#[trigger] bumped[i]).depth == i + 1
            && bumped[i].index <= bumped[i].targets.len() && bumped[i].targets.len() <= 6 by {
            if i < bumped.len() - 1 {
                assert(bumped[i] == v.frames[i]);
            } else {
                assert(bumped[i] == bumped.last());
            }
        }
    }
    assert(v.rag.is_prefix_of(v.rag));
    if let EventView::Probed { cancelled, eligible, key } = e {
        if !cancelled && (!eligible || v.scanned.contains(key)) {
            lemma_advance_initial(CheckView { frames: bumped, ..v }, none);
        }
    }
}

/// The laws of a step when a scan result of the first deep scans arrives.
#[verifier::spinoff_prover]
#[verifier::rlimit(40)]
proof fn lemma_step_initial_scan(v: CheckView, e: EventView)
    requires
        wf(v),
        expects(v, e),
        v.stage == (StageView::Initial { scanning: true }),
    ensures
        step_laws(v, e),
{
    let none = Seq::<Seq<char>>::empty();
    let top = v.frames.last();
    let path = top.targets[top.index as int];
    assert(v.frames[v.frames.len() - 1] == top);
    lemma_frames_left_bump(v.frames);
    let bumped = bump_top(v.frames);
    assert(frames_wf(bumped)) by {
        assert forall|i: int| 0 <= i < bumped.len() implies (#[trigger] bumped[i]).depth == i + 1
            && bumped[i].index <= bumped[i].targets.len() && bumped[i].targets.len() <= 6 by {
            if i < bumped.len() - 1 {
                assert(bumped[i] == v.frames[i]);
            } else {
                assert(bumped[i] == bumped.last());
            }
        }
    }
    if let EventView::Scanned(result) = e {
        let v1 = CheckView {
            budget: (v.budget - 1) as nat,
            scanned: v.scanned.push(v.pending),
            frames: bumped,
            ..v
        };
        match result {
            Ok(es) => {
                let d = scope_text("health_check_initial_child"@, top.depth, path, es);
                lemma_prefix_append(v.rag, d);
                let v2 = CheckView { rag: v.rag + d, ..v1 };
                if top.depth + 1 <= HEALTH_CHECK_INITIAL_MAX_DEPTH && v2.budget > 0 {
                    let f = FrameView { targets: deep_targets(es), index: 0, depth: top.depth + 1 };
                    let fs = v2.frames.push(f);
                    lemma_frames_left_push(v2.frames, f);
                    assert(top.depth == v.frames.len());
                    assert(frames_wf(fs)) by {
                        assert forall|i: int| 0 <= i < fs.len() implies (#[trigger] fs[i]).depth == i + 1
                            && fs[i].index <= fs[i].targets.len() && fs[i].targets.len() <= 6 by {
                            if i < fs.len() - 1 {
                                assert(fs[i] == bumped[i]);
                            }
                        }
                    }
                    lemma_advance_initial(CheckView { frames: fs, ..v2 }, none);
                } else {
                    lemma_advance_initial(v2, none);
                }
            },
            Err(why) => {
                let d = skipped_scope_text(top.depth, path, why);
                lemma_prefix_append(v.rag, d);
                lemma_advance_initial(CheckView { rag: v.rag + d, ..v1 }, none);
            },
        }
    }
}

/// The laws of a step around an AI round.
#[verifier::spinoff_prover]
proof fn lemma_step_round(v: CheckView, e: EventView)
    requires
        wf(v),
        expects(v, e),
        v.stage is RoundCancel || v.stage is RoundAnswer || v.stage is Forced || v.stage is Cleanup,
    ensures
        step_laws(v, e),
{
    assert(v.rag.is_prefix_of(v.rag));
    if let StageView::RoundAnswer { round } = v.stage {
        if let EventView::Answered(Ok(ReplySpec::NeedPaths(paths))) = e {
            if round != 3 {
                let requested = if paths.len() <= 6 {
                    paths
                } else {
                    paths.take(6)
                };
                lemma_advance_request(
                    CheckView {
                        stage: StageView::Request { round, requested, index: 0, appended: 0, scanning: false },
                        ..v
                    },
                    seq![need_paths_text(paths.len())],
                );
            }
        }
    }
}

/// The laws of a step among the paths the AI asked for.
#[verifier::spinoff_prover]
#[verifier::rlimit(40)]
proof fn lemma_step_request(v: CheckView, e: EventView)
    requires
        wf(v),
        expects(v, e),
        v.stage is Request,
    ensures
        step_laws(v, e),
{
    let none = Seq::<Seq<char>>::empty();
    if let StageView::Request { round, requested, index, appended, scanning } = v.stage {
        let path = requested[index as int];
        if !scanning {
            assert(v.rag.is_prefix_of(v.rag));
            if let EventView::Probed { eligible, key, .. } = e {
                if !eligible || v.scanned.contains(key) {
                    lemma_advance_request(
                        CheckView {
                            stage: StageView::Request { round, requested, index: index + 1, appended, scanning: false },
                            ..v
                        },
                        none,
                    );
                }
            }
        } else {
            if let EventView::Scanned(result) = e {
                let v1 = CheckView {
                    scanned: v.scanned.push(v.pending),
                    stage: StageView::Request { round, requested, index: index + 1, appended: appended + 1, scanning: false },
                    ..v
                };
                match result {
                    Ok(es) => {
                        let d = scope_text("health_check_requested_child"@, round, path, es);
                        lemma_prefix_append(v.rag, d);
                        lemma_advance_request(CheckView { rag: v.rag + d, ..v1 }, seq![appended_text(appended + 1, requested.len())]);
                    },
                    Err(why) => {
                        let d = skipped_scope_text(round, path, why);
                        lemma_prefix_append(v.rag, d);
                        lemma_advance_request(CheckView { rag: v.rag + d, ..v1 }, none);
                    },
                }
            }
        }
    }
}

/// Every step of a well-formed health check that gets the event it waits for keeps the
/// laws of `step_laws`.
pub proof fn lemma_step(v: CheckView, e: EventView)
    requires
        wf(v),
        expects(v, e),
    ensures
        step_laws(v, e),
{
    match v.stage {
        StageView::Initial { scanning } => if scanning {
            lemma_step_initial_scan(v, e);
        } else {
            lemma_step_initial_probe(v, e);
        },
        StageView::Request { .. } => lemma_step_request(v, e),
        StageView::Done => {},
        _ => lemma_step_round(v, e),
    }
}

/// How many AI questions a health check can still ask: four in all, one per round 1 to 3
/// and the last one that must give the report.
pub open spec fn asks_left(v: CheckView) -> nat {
    match v.stage {
        StageView::Initial { .. } => 4,
        StageView::RoundCancel { round } => (5 - round) as nat,
        StageView::RoundAnswer { round } => (4 - round) as nat,
        StageView::Request { round, .. } => (4 - round) as nat,
        _ => 0,
    }
}

/// How many cleanup plans a health check can still ask for: one, until it is asked.
pub open spec fn plans_left(v: CheckView) -> nat {
    match v.stage {
        StageView::Cleanup { .. } => 0,
        StageView::Done => 0,
        _ => 1,
    }
}

/// How many folders of the first deep scans can still be sent to be scanned: the budget,
/// less the folder being scanned.
pub open spec fn initial_scans_left(v: CheckView) -> nat {
    match v.stage {
        StageView::Initial { scanning } => (v.budget - if scanning {
            1int
        } else {
            0int
        }) as nat,
        _ => 0,
    }
}

/// How many folders can still be sent to be scanned: those of the first deep scans, and up
/// to six in each of AI rounds 1 and 2.
pub open spec fn scans_left(v: CheckView) -> nat {
    match v.stage {
        StageView::Initial { .. } => initial_scans_left(v) + 12,
        StageView::RoundCancel { round } => if round <= 2 {
            (6 * (3 - round)) as nat
        } else {
            0
        },
        StageView::RoundAnswer { round } => if round <= 2 {
            (6 * (3 - round)) as nat
        } else {
            0
        },
        StageView::Request { round, requested, index, scanning, .. } => (requested.len() - index
            - (if scanning {
            1int
        } else {
            0int
        }) + 6 * (2 - round)) as nat,
        _ => 0,
    }
}

/// The command asks an AI question.
pub open spec fn is_ask(st: StepView) -> bool {
    st.command is Ask
}

/// The command asks for the cleanup plan.
pub open spec fn is_plan(st: StepView) -> bool {
    st.command is PlanCleanup
}

/// The command sends a folder to be scanned.
pub open spec fn is_scan(st: StepView) -> bool {
    st.command is Scan
}

/// The step sends a folder of the first deep scans to be scanned.
pub open spec fn is_initial_scan(w: CheckView, st: StepView) -> bool {
    st.command is Scan && w.stage is Initial
}

/// What one step uses up: an AI question, the cleanup plan, a folder to scan, a folder of
/// the first deep scans to scan, each weighed against what is left before and after it.
pub open spec fn count_laws(v: CheckView, e: EventView) -> bool {
    let (w, st) = next(v, e);
    &&& asks_left(w) + (if is_ask(st) { 1int } else { 0int }) <= asks_left(v)
    &&& plans_left(w) + (if is_plan(st) { 1int } else { 0int }) <= plans_left(v)
    &&& scans_left(w) + (if is_scan(st) { 1int } else { 0int }) <= scans_left(v)
    &&& initial_scans_left(w) + (if is_initial_scan(w, st) { 1int } else { 0int }) <= initial_scans_left(v)
}

/// Moving on among the requested paths of round `round` uses up no plan and no folder of the
/// first deep scans, at most one question, and leaves at most the paths not yet probed.
proof fn lemma_advance_request_counts(v: CheckView, p: Seq<Seq<char>>)
    requires
        v.stage matches StageView::Request { round, requested, index, appended, .. } && 1 <= round <= 2
            && requested.len() <= 6 && index <= requested.len() && appended <= index,
    ensures
        ({
            let (w, st) = advance_request(v, p);
            v.stage matches StageView::Request { round, requested, index, .. } && {
                &&& asks_left(w) + (if is_ask(st) { 1int } else { 0int }) <= 4 - round
                &&& plans_left(w) == 1
                &&& !is_plan(st) && !is_scan(st)
                &&& initial_scans_left(w) == 0
                &&& scans_left(w) <= requested.len() - index + 6 * (2 - round)
            }
        }),
{
}

/// The counts of a step of the first deep scans.
#[verifier::spinoff_prover]
#[verifier::rlimit(40)]
proof fn lemma_counts_initial(v: CheckView, e: EventView)
    requires
        wf(v),
        expects(v, e),
        v.stage is Initial,
    ensures
        count_laws(v, e),
{
    let none = Seq::<Seq<char>>::empty();
    let top = v.frames.last();
    let path = top.targets[top.index as int];
    assert(v.frames[v.frames.len() - 1] == top);
    lemma_frames_left_bump(v.frames);
    let bumped = bump_top(v.frames);
    assert(frames_wf(bumped)) by {
        assert forall|i: int| 0 <= i < bumped.len() implies (#[trigger] bumped[i]).depth == i + 1
            && bumped[i].index <= bumped[i].targets.len() && bumped[i].targets.len() <= 6 by {
            if i < bumped.len() - 1 {
                assert(bumped[i] == v.frames[i]);
            } else {
                assert(bumped[i] == bumped.last());
            }
        }
    }
    if v.stage == (StageView::Initial { scanning: false }) {
        if let EventView::Probed { cancelled, eligible, key } = e {
            if !cancelled && (!eligible || v.scanned.contains(key)) {
                lemma_advance_initial(CheckView { frames: bumped, ..v }, none);
            }
        }
    } else {
        if let EventView::Scanned(result) = e {
            let v1 = CheckView {
                budget: (v.budget - 1) as nat,
                scanned: v.scanned.push(v.pending),
                frames: bumped,
                ..v
            };
            match result {
                Ok(es) => {
                    let d = scope_text("health_check_initial_child"@, top.depth, path, es);
                    let v2 = CheckView { rag: v.rag + d, ..v1 };
                    if top.depth + 1 <= HEALTH_CHECK_INITIAL_MAX_DEPTH && v2.budget > 0 {
                        let f = FrameView { targets: deep_targets(es), index: 0, depth: top.depth + 1 };
                        let fs = v2.frames.push(f);
                        assert(top.depth == v.frames.len());
                        assert(frames_wf(fs)) by {
                            assert forall|i: int| 0 <= i < fs.len() implies (#[trigger] fs[i]).depth == i + 1
                                && fs[i].index <= fs[i].targets.len() && fs[i].targets.len() <= 6 by {
                                if i < fs.len() - 1 {
                                    assert(fs[i] == bumped[i]);
                                }
                            }
                        }
                        lemma_advance_initial(CheckView { frames: fs, ..v2 }, none);
                    } else {
                        lemma_advance_initial(v2, none);
                    }
                },
                Err(why) => {
                    let d = skipped_scope_text(top.depth, path, why);
                    lemma_advance_initial(CheckView { rag: v.rag + d, ..v1 }, none);
                },
            }
        }
    }
}

/// The counts of a step around an AI round or among the requested paths.
#[verifier::spinoff_prover]
#[verifier::rlimit(40)]
proof fn lemma_counts_rounds(v: CheckView, e: EventView)
    requires
        wf(v),
        expects(v, e),
        !(v.stage is Initial),
    ensures
        count_laws(v, e),
{
    let none = Seq::<Seq<char>>::empty();
    match v.stage {
        StageView::RoundAnswer { round } => {
            if let EventView::Answered(Ok(ReplySpec::NeedPaths(paths))) = e {
                if round != 3 {
                    let requested = if paths.len() <= 6 {
                        paths
                    } else {
                        paths.take(6)
                    };
                    lemma_advance_request_counts(
                        CheckView {
                            stage: StageView::Request { round, requested, index: 0, appended: 0, scanning: false },
                            ..v
                        },
                        seq![need_paths_text(paths.len())],
                    );
                }
            }
        },
        StageView::Request { round, requested, index, appended, scanning } => {
            let path = requested[index as int];
            if !scanning {
                if let EventView::Probed { eligible, key, .. } = e {
                    if !eligible || v.scanned.contains(key) {
                        lemma_advance_request_counts(
                            CheckView {
                                stage: StageView::Request { round, requested, index: index + 1, appended, scanning: false },
                                ..v
                            },
                            none,
                        );
                    }
                }
            } else {
                if let EventView::Scanned(result) = e {
                    let v1 = CheckView {
                        scanned: v.scanned.push(v.pending),
                        stage: StageView::Request { round, requested, index: index + 1, appended: appended + 1, scanning: false },
                        ..v
                    };
                    match result {
                        Ok(es) => {
                            let d = scope_text("health_check_requested_child"@, round, path, es);
                            lemma_advance_request_counts(
                                CheckView { rag: v.rag + d, ..v1 },
                                seq![appended_text(appended + 1, requested.len())],
                            );
                        },
                        Err(why) => {
                            let d = skipped_scope_text(round, path, why);
                            lemma_advance_request_counts(CheckView { rag: v.rag + d, ..v1 }, none);
                        },
                    }
                }
            }
        },
        _ => {},
    }
}

/// Every step of a well-formed health check that gets the event it waits for keeps the
/// laws of `count_laws`.
pub proof fn lemma_counts(v: CheckView, e: EventView)
    requires
        wf(v),
        expects(v, e),
    ensures
        count_laws(v, e),
{
    if v.stage is Initial {
        lemma_counts_initial(v, e);
    } else {
        lemma_counts_rounds(v, e);
    }
}

/// The steps a health check takes on a list of events, each with the check after it.
pub open spec fn run(v: CheckView, evs: Seq<EventView>) -> Seq<(CheckView, StepView)>
    decreases evs.len(),
{
    if evs.len() == 0 {
        Seq::empty()
    } else {
        let (w, st) = next(v, evs[0]);
        seq![(w, st)] + run(w, evs.drop_first())
    }
}

/// Each event of the list is the one the health check waits for when it comes.
pub open spec fn fits_run(v: CheckView, evs: Seq<EventView>) -> bool
    decreases evs.len(),
{
    evs.len() == 0 || (expects(v, evs[0]) && fits_run(next(v, evs[0]).0, evs.drop_first()))
}

/// How many steps of a list pass a test.
pub open spec fn count_steps(steps: Seq<(CheckView, StepView)>, f: spec_fn(CheckView, StepView) -> bool) -> nat
    decreases steps.len(),
{
    if steps.len() == 0 {
        0
    } else {
        (if f(steps[0].0, steps[0].1) {
            1nat
        } else {
            0nat
        }) + count_steps(steps.drop_first(), f)
    }
}

/// A run of a well-formed health check uses up at most what is left: AI questions, cleanup
/// plans, folders to scan, and folders of the first deep scans; and its context only grows.
pub proof fn lemma_run(v: CheckView, evs: Seq<EventView>)
    requires
        wf(v),
        fits_run(v, evs),
    ensures
        count_steps(run(v, evs), |w: CheckView, st: StepView| is_ask(st)) <= asks_left(v),
        count_steps(run(v, evs), |w: CheckView, st: StepView| is_plan(st)) <= plans_left(v),
        count_steps(run(v, evs), |w: CheckView, st: StepView| is_scan(st)) <= scans_left(v),
        count_steps(run(v, evs), |w: CheckView, st: StepView| is_initial_scan(w, st)) <= initial_scans_left(v),
        forall|k: int| 0 <= k < run(v, evs).len() ==> v.rag.is_prefix_of(#[trigger] run(v, evs)[k].0.rag),
        run(v, evs).len() == evs.len(),
    decreases evs.len(),
{
    if evs.len() > 0 {
        let e = evs[0];
        let (w, st) = next(v, e);
        let rest = evs.drop_first();
        lemma_step(v, e);
        lemma_counts(v, e);
        lemma_run(w, rest);
        let steps = run(v, evs);
        assert(steps.drop_first() == run(w, rest));
        assert(steps[0] == (w, st));
        assert forall|k: int| 0 <= k < steps.len() implies v.rag.is_prefix_of(#[trigger] steps[k].0.rag) by {
            if k > 0 {
                assert(steps[k] == run(w, rest)[k - 1]);
                let a = v.rag;
                let b = w.rag;
                let c = steps[k].0.rag;
                assert(c.subrange(0, a.len() as int) =~= b.subrange(0, b.len() as int).subrange(0, a.len() as int));
            }
        }
    }
}

/// How a health check starts: well formed, with its starting document as context; given a
/// scan tree it reads the cancel flag before round 1, else at most 24 folders of the first
/// deep scans are left.
proof fn lemma_start_context(root: Seq<char>, root_key: Seq<char>, es: Seq<ScanEntry>, tree: Option<ScanNode>)
    ensures
        wf(start_view(root, root_key, es, tree).0),
        start_view(root, root_key, es, tree).0.rag == (match tree {
            Some(t) => full_scan_doc(t, "health_check_full_tree"@),
            None => diagnostic_doc(root, es, "health_check_root"@),
        }),
        tree is Some ==> start_view(root, root_key, es, tree).0.stage == (StageView::RoundCancel { round: 1 }),
        initial_scans_left(start_view(root, root_key, es, tree).0) <= 24,
{
    lemma_start_wf(root, root_key, es, tree);
    if tree is None {
        let v = CheckView {
            root,
            rag: diagnostic_doc(root, es, "health_check_root"@),
            scanned: seq![root_key],
            budget: HEALTH_CHECK_INITIAL_SCOPE_BUDGET as nat,
            frames: seq![FrameView { targets: deep_targets(es), index: 0, depth: 1 }],
            stage: StageView::Done,
            pending: Seq::empty(),
        };
        assert(deep_targets(es).len() <= 6);
        lemma_advance_initial(v, seq![started_text(es.len())]);
    }
}

/// From reading the cancel flag before round 1, a run that asks anything asks round 1 in its
/// first step, with the context unchanged.
proof fn lemma_first_ask(v: CheckView, evs: Seq<EventView>)
    requires
        wf(v),
        v.stage == (StageView::RoundCancel { round: 1 }),
        fits_run(v, evs),
    ensures
        initial_scans_left(v) == 0,
        count_steps(run(v, evs), |w: CheckView, st: StepView| is_ask(st)) > 0 ==> run(v, evs)[0].1.command
            == (CommandView::Ask { round: 1, force_report: false }) && run(v, evs)[0].0.rag == v.rag,
{
    if evs.len() > 0 {
        let (w, st) = next(v, evs[0]);
        let rest = evs.drop_first();
        lemma_step(v, evs[0]);
        lemma_run(w, rest);
        let steps = run(v, evs);
        assert(steps.drop_first() == run(w, rest));
        assert(steps[0] == (w, st));
        if let EventView::Cancel(c) = evs[0] {
            if c {
                assert(asks_left(w) == 0);
            }
        }
    }
}

/// Over a whole health check, whatever the AI, the disk and the user answer:
/// - at most four AI questions are asked and at most one cleanup plan;
/// - at most 36 folders are scanned, at most 24 of them before the first question;
/// - the context only grows from the starting document: the root's diagnostic document,
///   or, given a scan tree, the whole-tree document;
/// - given a scan tree, no folder is scanned before the questions, and the first step, when
///   any question is asked at all, asks round 1 with the whole-tree document as context.
pub proof fn lemma_whole_run(
    root: Seq<char>,
    root_key: Seq<char>,
    es: Seq<ScanEntry>,
    tree: Option<ScanNode>,
    evs: Seq<EventView>,
)
    requires
        fits_run(start_view(root, root_key, es, tree).0, evs),
    ensures
        ({
            let v = start_view(root, root_key, es, tree).0;
            let steps = run(v, evs);
            &&& count_steps(steps, |w: CheckView, st: StepView| is_ask(st)) <= 4
            &&& count_steps(steps, |w: CheckView, st: StepView| is_plan(st)) <= 1
            &&& count_steps(steps, |w: CheckView, st: StepView| is_scan(st)) <= 36
            &&& count_steps(steps, |w: CheckView, st: StepView| is_initial_scan(w, st)) <= 24
            &&& forall|k: int| 0 <= k < steps.len() ==> (match tree {
                Some(t) => full_scan_doc(t, "health_check_full_tree"@),
                None => diagnostic_doc(root, es, "health_check_root"@),
            }).is_prefix_of(#[trigger] steps[k].0.rag)
            &&& tree is Some ==> count_steps(steps, |w: CheckView, st: StepView| is_initial_scan(w, st)) == 0
            &&& match tree {
                Some(t) => count_steps(steps, |w: CheckView, st: StepView| is_ask(st)) > 0 ==> steps[0].1.command
                    == (CommandView::Ask { round: 1, force_report: false }) && steps[0].0.rag
                    == full_scan_doc(t, "health_check_full_tree"@),
                None => true,
            }
        }),
{
    let v = start_view(root, root_key, es, tree).0;
    lemma_start_context(root, root_key, es, tree);
    lemma_run(v, evs);
    if tree is Some {
        lemma_first_ask(v, evs);
    }
}

} // verus!
