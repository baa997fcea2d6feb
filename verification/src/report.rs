//! Health-report texts: status lines, splitting a report into its analysis and
//! cleanup parts, markdown clean-up and the cleanup BAT helpers.
use vstd::prelude::*;
use crate::text::{
    chars_of, count_char, count_char_exec, dec, ends_with, ends_with_exec, find,
    find_from_exec, is_alnum, lemma_find_in_range, is_alpha, is_digit, push_chars, push_dec,
    push_str, replace_all, replace_exec, slice, starts_with, starts_with_exec, string_of,
    strip_prefixes, strip_prefixes_exec, lines, lines_exec, strip_suffixes, strip_suffixes_exec, trim, trim_chars,
};

verus! {

/// The label of the drive health-check action.
pub const HEALTH_CHECK_LABEL: &'static str = "健康检查";

/// Status shown while a drive is scanned before its health check.
pub open spec fn scan_status_text(label: Seq<char>) -> Seq<char> {
    "正在扫描 "@ + label + "，完成后生成健康检查报告..."@
}

/// Status shown while the health report of a scanned drive is generated.
pub open spec fn report_status_text(label: Seq<char>) -> Seq<char> {
    "正在基于 "@ + label + " 扫描结果生成健康检查报告..."@
}

/// Status shown while the AI is asked in round `round`.
pub open spec fn ai_round_status_text(round: nat, force_report: bool) -> Seq<char> {
    if force_report {
        "正在请求 AI 生成最终健康检查报告（第 "@ + dec(round) + " 轮）..."@
    } else {
        "正在请求 AI 判断是否需要深挖（第 "@ + dec(round) + " 轮）..."@
    }
}

/// Status shown while a path that the AI asked for is scanned.
pub open spec fn deep_scan_status_text(round: nat, index: nat, total: nat, path: Seq<char>) -> Seq<
    char,
> {
    "AI 请求继续深挖 "@ + dec(total) + " 个路径。\n正在扫描第 "@ + dec(index) + "/"@ + dec(total)
        + " 个（第 "@ + dec(round) + " 轮）："@ + path
}

/// `"正在扫描 {label}，完成后生成健康检查报告..."`.
pub fn health_check_scan_status(label: &str) -> (s: String)
    ensures
        s@ == scan_status_text(label@),
{
    let mut s = String::new();
    push_str(&mut s, "正在扫描 ");
    push_str(&mut s, label);
    push_str(&mut s, "，完成后生成健康检查报告...");
    s
}

/// `"正在基于 {label} 扫描结果生成健康检查报告..."`.
pub fn health_check_report_status(label: &str) -> (s: String)
    ensures
        s@ == report_status_text(label@),
{
    let mut s = String::new();
    push_str(&mut s, "正在基于 ");
    push_str(&mut s, label);
    push_str(&mut s, " 扫描结果生成健康检查报告...");
    s
}

/// The status of AI round `round`, worded for the final round when `force_report`.
pub fn health_check_ai_round_status(round: u32, force_report: bool) -> (s: String)
    ensures
        s@ == ai_round_status_text(round as nat, force_report),
{
    let mut s = String::new();
    if force_report {
        push_str(&mut s, "正在请求 AI 生成最终健康检查报告（第 ");
    } else {
        push_str(&mut s, "正在请求 AI 判断是否需要深挖（第 ");
    }
    push_dec(&mut s, round as u128);
    push_str(&mut s, " 轮）...");
    s
}

/// The status of the deep scan of path `index` of `total` in round `round`.
pub fn health_check_deep_scan_status(round: u32, index: usize, total: usize, path: &str) -> (s:
    String)
    ensures
        s@ == deep_scan_status_text(round as nat, index as nat, total as nat, path@),
{
    let mut s = String::new();
    push_str(&mut s, "AI 请求继续深挖 ");
    push_dec(&mut s, total as u128);
    push_str(&mut s, " 个路径。\n正在扫描第 ");
    push_dec(&mut s, index as u128);
    push_str(&mut s, "/");
    push_dec(&mut s, total as u128);
    push_str(&mut s, " 个（第 ");
    push_dec(&mut s, round as u128);
    push_str(&mut s, " 轮）：");
    push_str(&mut s, path);
    s
}

/// The headings that open the cleanup part of a health report.
pub open spec fn cleanup_markers() -> Seq<Seq<char>> {
    seq![
        "## 清理意见报告"@,
        "## 清理计划"@,
        "## 清理意见"@,
        "## Cleanup"@,
        "\nCleanup"@,
        "\nPriority"@,
        "\n清理意见报告"@,
        "\n清理计划"@,
        "\n清理意见"@,
        "\n执行优先级"@,
    ]
}

/// The smaller of two optional positions.
pub open spec fn min_pos(a: Option<int>, b: Option<int>) -> Option<int> {
    match (a, b) {
        (Some(x), Some(y)) => Some(if x <= y { x } else { y }),
        (Some(x), None) => Some(x),
        (None, y) => y,
    }
}

/// The earliest position in `s` at which one of `ms[i..]` occurs.
pub open spec fn earliest_from(s: Seq<char>, ms: Seq<Seq<char>>, i: int) -> Option<int>
    decreases ms.len() - i,
{
    if i < 0 || i >= ms.len() {
        None
    } else {
        min_pos(find(s, ms[i]), earliest_from(s, ms, i + 1))
    }
}

/// Where the cleanup part of a report starts: the first occurrence of any cleanup heading.
pub open spec fn cleanup_start(s: Seq<char>) -> Option<int> {
    earliest_from(s, cleanup_markers(), 0)
}

/// A health report cut into the part shown under analysis and the part shown under cleanup.
pub struct HealthReportSplit {
    pub analysis: String,
    pub cleanup: String,
}

/// Where the cleanup part of `report` starts, as an index into its characters.
fn find_cleanup_section_start(report: &str) -> (r: Option<usize>)
    ensures
        r matches Some(i) ==> cleanup_start(report@) == Some(i as int),
        r is None ==> cleanup_start(report@) is None,
{
    let s = chars_of(report);
    let markers: Vec<&str> = vec![
        "## 清理意见报告",
        "## 清理计划",
        "## 清理意见",
        "## Cleanup",
        "\nCleanup",
        "\nPriority",
        "\n清理意见报告",
        "\n清理计划",
        "\n清理意见",
        "\n执行优先级",
    ];
    let ghost ms = cleanup_markers();
    assert(markers@.map_values(|m: &str| m@) == ms);
    let mut best: Option<usize> = None;
    let mut i = markers.len();
    while i > 0
        invariant
            i <= markers.len() == ms.len(),
            forall|k: int| 0 <= k < ms.len() ==> #[trigger] markers@[k]@ == ms[k],
            best matches Some(b) ==> earliest_from(s@, ms, i as int) == Some(b as int),
            best is None ==> earliest_from(s@, ms, i as int) is None,
        decreases i,
    {
        i -= 1;
        let m = chars_of(markers[i]);
        assert(m@ == ms[i as int]);
        let found = find_from_exec(&s, &m, 0);
        best = match (found, best) {
            (Some(x), Some(y)) => Some(if x <= y { x } else { y }),
            (Some(x), None) => Some(x),
            (None, y) => y,
        };
    }
    best
}

/// `split_health_report`: both parts trimmed; no cleanup part when no cleanup heading occurs.
pub open spec fn split_analysis(s: Seq<char>) -> Seq<char> {
    match cleanup_start(s) {
        Some(i) => trim(s.take(i)),
        None => trim(s),
    }
}

/// The cleanup part of a report, from its first cleanup heading on, trimmed.
pub open spec fn split_cleanup(s: Seq<char>) -> Seq<char> {
    match cleanup_start(s) {
        Some(i) => trim(s.skip(i)),
        None => Seq::empty(),
    }
}

/// Cuts a health report at its first cleanup heading.
pub fn split_health_report(report: &str) -> (r: HealthReportSplit)
    ensures
        r.analysis@ == split_analysis(report@),
        r.cleanup@ == split_cleanup(report@),
{
    let s = chars_of(report);
    let start = find_cleanup_section_start(report);
    match start {
        Some(i) => {
            proof {
                lemma_earliest_in_range(s@, cleanup_markers(), 0);
            }
            let a = slice(&s, 0, i);
            let c = slice(&s, i, s.len());
            HealthReportSplit { analysis: string_of(&trim_chars(&a)), cleanup: string_of(&trim_chars(&c)) }
        },
        None => HealthReportSplit { analysis: string_of(&trim_chars(&s)), cleanup: String::new() },
    }
}

/// The earliest marker position lies within the text.
pub proof fn lemma_earliest_in_range(s: Seq<char>, ms: Seq<Seq<char>>, i: int)
    ensures
        earliest_from(s, ms, i) matches Some(k) ==> 0 <= k <= s.len(),
    decreases ms.len() - i,
{
    if 0 <= i < ms.len() {
        lemma_find_in_range(s, ms[i], 0);
        lemma_earliest_in_range(s, ms, i + 1);
    }
}

/// `clean_markdown_inline`: bold markers and backticks dropped, `<br>` and `<br/>` made spaces.
pub open spec fn clean_inline(s: Seq<char>) -> Seq<char> {
    replace_all(
        replace_all(
            replace_all(replace_all(s, seq!['*', '*'], Seq::empty()), seq!['`'], Seq::empty()),
            seq!['<', 'b', 'r', '>'],
            seq![' '],
        ),
        seq!['<', 'b', 'r', '/', '>'],
        seq![' '],
    )
}

/// A markdown line shaped like a table row: `|` at both ends.
pub open spec fn is_table_row(s: Seq<char>) -> bool {
    starts_with(s, seq!['|']) && ends_with(s, seq!['|']) && count_char(s, '|') >= 2
}

/// The characters a table separator row is made of.
pub open spec fn is_sep_char(c: char) -> bool {
    c == '|' || c == '-' || c == ':' || c == ' ' || c == '\t'
}

/// A table row made only of `|`, `-`, `:`, spaces and tabs.
pub open spec fn is_table_sep(s: Seq<char>) -> bool {
    is_table_row(s) && forall|i: int| 0 <= i < s.len() ==> is_sep_char(#[trigger] s[i])
}

/// Removes markdown emphasis and line-break tags from inline text.
pub fn clean_markdown_inline(text: &str) -> (s: String)
    ensures
        s@ == clean_inline(text@),
{
    let v = chars_of(text);
    string_of(&clean_chars(&v))
}

/// `clean_inline` on characters.
pub fn clean_chars(v: &Vec<char>) -> (out: Vec<char>)
    ensures
        out@ == clean_inline(v@),
{
    let empty: Vec<char> = Vec::new();
    let space: Vec<char> = vec![' '];
    let p1: Vec<char> = vec!['*', '*'];
    let p2: Vec<char> = vec!['`'];
    let p3: Vec<char> = vec!['<', 'b', 'r', '>'];
    let p4: Vec<char> = vec!['<', 'b', 'r', '/', '>'];
    assert(empty@ =~= Seq::<char>::empty());
    assert(space@ =~= seq![' ']);
    assert(p1@ =~= seq!['*', '*']);
    assert(p2@ =~= seq!['`']);
    assert(p3@ =~= seq!['<', 'b', 'r', '>']);
    assert(p4@ =~= seq!['<', 'b', 'r', '/', '>']);
    let a = replace_exec(v, &p1, &empty);
    let b = replace_exec(&a, &p2, &empty);
    let c = replace_exec(&b, &p3, &space);
    replace_exec(&c, &p4, &space)
}

/// Whether `line` is shaped like a markdown table row.
pub fn is_markdown_table_row(line: &str) -> (b: bool)
    ensures
        b == is_table_row(line@),
{
    let v = chars_of(line);
    row_chars(&v)
}

/// `is_table_row` on characters.
pub fn row_chars(v: &Vec<char>) -> (b: bool)
    ensures
        b == is_table_row(v@),
{
    let bar: Vec<char> = vec!['|'];
    assert(bar@ =~= seq!['|']);
    starts_with_exec(v, &bar) && ends_with_exec(v, &bar) && count_char_exec(v, '|') >= 2
}

/// Whether `line` is a markdown table separator row such as `| --- | :-: |`.
pub fn is_markdown_table_separator(line: &str) -> (b: bool)
    ensures
        b == is_table_sep(line@),
{
    let v = chars_of(line);
    sep_chars(&v)
}

/// `is_table_sep` on characters.
pub fn sep_chars(v: &Vec<char>) -> (b: bool)
    ensures
        b == is_table_sep(v@),
{
    if !row_chars(v) {
        return false;
    }
    let mut i: usize = 0;
    while i < v.len()
        invariant
            i <= v.len(),
            forall|k: int| 0 <= k < i ==> is_sep_char(#[trigger] v@[k]),
        decreases v.len() - i,
    {
        let c = v[i];
        if !(c == '|' || c == '-' || c == ':' || c == ' ' || c == '\t') {
            return false;
        }
        i += 1;
    }
    true
}

/// `s` with every `|` stripped from both ends (`trim_matches('|')`).
pub open spec fn trim_bars(s: Seq<char>) -> Seq<char> {
    strip_suffixes(strip_prefixes(s, seq!['|']), seq!['|'])
}

/// The line a title is taken from: trimmed, bars and list markers dropped, cleaned.
pub open spec fn title_core(line: Seq<char>) -> Seq<char> {
    clean_inline(
        trim(strip_prefixes(strip_prefixes(trim_bars(trim(line)), seq!['-', ' ']), seq!['*', ' '])),
    )
}

/// The first `|`-separated cell of `s` that is not blank, trimmed (empty if none).
pub open spec fn first_cell(s: Seq<char>) -> Seq<char>
    decreases s.len(),
{
    match find(s, seq!['|']) {
        None => trim(s),
        Some(k) => {
            if trim(s.take(k)).len() > 0 || k < 0 || k >= s.len() {
                trim(s.take(k))
            } else {
                first_cell(s.skip(k + 1))
            }
        },
    }
}

/// At most the first 80 characters.
pub open spec fn take80(s: Seq<char>) -> Seq<char> {
    if s.len() <= 80 {
        s
    } else {
        s.take(80)
    }
}

/// The title of the cleanup action a plan line describes.
pub open spec fn action_title(line: Seq<char>) -> Seq<char> {
    take80(first_cell(title_core(line)))
}

/// The title of the cleanup action described by one plan line.
pub fn cleanup_action_title(line: &str) -> (s: String)
    ensures
        s@ == action_title(line@),
{
    let v = chars_of(line);
    string_of(&title_chars(&v))
}

/// `action_title` on characters.
pub fn title_chars(v: &Vec<char>) -> (out: Vec<char>)
    ensures
        out@ == action_title(v@),
{
    let bar: Vec<char> = vec!['|'];
    let dash: Vec<char> = vec!['-', ' '];
    let star: Vec<char> = vec!['*', ' '];
    assert(bar@ =~= seq!['|']);
    assert(dash@ =~= seq!['-', ' ']);
    assert(star@ =~= seq!['*', ' ']);
    let t = trim_chars(v);
    let t = strip_prefixes_exec(&t, &bar);
    let t = strip_suffixes_exec(&t, &bar);
    let t = strip_prefixes_exec(&t, &dash);
    let t = strip_prefixes_exec(&t, &star);
    let t = trim_chars(&t);
    let core = clean_chars(&t);
    let cell = first_cell_chars(&core);
    if cell.len() <= 80 {
        cell
    } else {
        slice(&cell, 0, 80)
    }
}

/// `first_cell` on characters.
pub fn first_cell_chars(s: &Vec<char>) -> (out: Vec<char>)
    ensures
        out@ == first_cell(s@),
{
    let bar: Vec<char> = vec!['|'];
    assert(bar@ =~= seq!['|']);
    let mut pos: usize = 0;
    assert(s@.skip(0) == s@);
    loop
        invariant
            pos <= s.len(),
            bar@ == seq!['|'],
            first_cell(s@) == first_cell(s@.skip(pos as int)),
        decreases s.len() - pos,
    {
        let rest = slice(s, pos, s.len());
        assert(rest@ == s@.skip(pos as int));
        match find_from_exec(&rest, &bar, 0) {
            None => {
                return trim_chars(&rest);
            },
            Some(k) => {
                proof {
                    lemma_find_in_range(rest@, bar@, 0);
                }
                let piece = trim_chars(&slice(&rest, 0, k));
                assert(rest@.subrange(0, k as int) == rest@.take(k as int));
                if piece.len() > 0 {
                    return piece;
                }
                assert(rest@.skip(k + 1) == s@.skip(pos + k + 1));
                pos = pos + k + 1;
            },
        }
    }
}

/// A drive path starts at `i`: a letter, `:` and `\`.
pub open spec fn is_path_head(s: Seq<char>, i: int) -> bool {
    0 <= i && i + 2 < s.len() && is_alpha(s[i]) && s[i + 1] == ':' && s[i + 2] == '\\'
}

/// The first drive-path start at or after `i`.
pub open spec fn path_head_from(s: Seq<char>, i: int) -> Option<int>
    decreases s.len() - i,
{
    if i < 0 || i + 2 >= s.len() {
        None
    } else if is_path_head(s, i) {
        Some(i)
    } else {
        path_head_from(s, i + 1)
    }
}

/// The characters that end a path inside a plan line.
pub open spec fn is_path_stop(c: char) -> bool {
    c == '|' || c == '`' || c == '"' || c == '\r' || c == '\n'
}

/// The first path-ending character at or after `j` (`s.len()` if none).
pub open spec fn path_end_from(s: Seq<char>, j: int) -> int
    decreases s.len() - j,
{
    if j < 0 || j >= s.len() {
        s.len() as int
    } else if is_path_stop(s[j]) {
        j
    } else {
        path_end_from(s, j + 1)
    }
}

/// The first Windows absolute path in a line, up to a cell or quote boundary,
/// trimmed and without trailing backslashes.
pub open spec fn windows_path(s: Seq<char>) -> Option<Seq<char>> {
    match path_head_from(s, 0) {
        None => None,
        Some(i) => Some(
            strip_suffixes(trim(s.subrange(i, path_end_from(s, i + 3))), seq!['\\']),
        ),
    }
}

/// `path_end_from` lies between `j` and the end.
pub proof fn lemma_path_end_range(s: Seq<char>, j: int)
    requires
        0 <= j <= s.len(),
    ensures
        j <= path_end_from(s, j) <= s.len(),
    decreases s.len() - j,
{
    if j < s.len() && !is_path_stop(s[j]) {
        lemma_path_end_range(s, j + 1);
    }
}

/// The first Windows absolute path (`C:\...`) in a line.
pub fn extract_windows_path(line: &str) -> (r: Option<String>)
    ensures
        r matches Some(p) ==> windows_path(line@) == Some(p@),
        r is None ==> windows_path(line@) is None,
{
    let v = chars_of(line);
    match path_chars(&v) {
        Some(p) => Some(string_of(&p)),
        None => None,
    }
}

/// `windows_path` on characters.
pub fn path_chars(s: &Vec<char>) -> (r: Option<Vec<char>>)
    ensures
        r matches Some(p) ==> windows_path(s@) == Some(p@),
        r is None ==> windows_path(s@) is None,
{
    let mut i: usize = 0;
    while i < s.len() && s.len() - i > 2
        invariant
            i <= s.len(),
            path_head_from(s@, 0) == path_head_from(s@, i as int),
        decreases s.len() - i,
    {
        let c = s[i];
        let alpha = ('a' <= c && c <= 'z') || ('A' <= c && c <= 'Z');
        if alpha && s[i + 1] == ':' && s[i + 2] == '\\' {
            let mut end = i + 3;
            proof {
                lemma_path_end_range(s@, i + 3);
            }
            while end < s.len() && !(s[end] == '|' || s[end] == '`' || s[end] == '"' || s[end]
                == '\r' || s[end] == '\n')
                invariant
                    i + 3 <= end <= s.len(),
                    path_end_from(s@, i + 3) == path_end_from(s@, end as int),
                decreases s.len() - end,
            {
                end += 1;
            }
            assert(is_path_head(s@, i as int));
            assert(path_head_from(s@, 0) == Some(i as int));
            assert(path_end_from(s@, i + 3) == end);
            let bs: Vec<char> = vec!['\\'];
            assert(bs@ =~= seq!['\\']);
            let piece = trim_chars(&slice(s, i, end));
            return Some(strip_suffixes_exec(&piece, &bs));
        }
        i += 1;
    }
    None
}

/// `s` with every `"` made `'`.
pub open spec fn quote_safe(s: Seq<char>) -> Seq<char> {
    replace_all(s, seq!['"'], seq!['\''])
}

/// The lines that open the target path in a cleanup script.
pub open spec fn bat_target_lines(path: Seq<char>) -> Seq<char> {
    "set \"TARGET="@ + path
        + "\"\r\necho 目标路径: %TARGET%\r\nif exist \"%TARGET%\" (\r\n  start \"\" \"%TARGET%\"\r\n) else (\r\n  echo 目标路径不存在或无权限访问。\r\n)\r\n"@
}

/// The temporary cleanup script for a plan item: it shows the plan, opens the target
/// path when there is one, and deletes nothing.
pub open spec fn bat_script(title: Seq<char>, path: Option<Seq<char>>, source: Seq<char>) -> Seq<
    char,
> {
    "@echo off\r\nchcp 65001 >nul\r\ntitle Driver Doctor Cleanup Helper\r\necho Driver Doctor 临时清理助手\r\necho 计划: "@
        + quote_safe(title) + "\r\necho 来源: "@ + quote_safe(source) + "\r\n"@ + match path {
        Some(p) => bat_target_lines(p),
        None => Seq::empty(),
    }
        + "echo.\r\necho 为避免误删，本脚本默认打开目标位置并展示建议，不静默删除文件。\r\necho 请先确认软件内迁移、自动清理或关闭生成选项，再手动清理。\r\npause\r\n"@
}

/// The view of an optional string.
pub open spec fn opt_view(o: Option<String>) -> Option<Seq<char>> {
    match o {
        Some(s) => Some(s@),
        None => None,
    }
}

/// The view of an optional string slice.
pub open spec fn opt_str_view(o: Option<&str>) -> Option<Seq<char>> {
    match o {
        Some(s) => Some(s@),
        None => None,
    }
}

/// Builds the cleanup script for one plan item.
pub fn build_cleanup_bat_script(title: &str, path: Option<&str>, source_line: &str) -> (s: String)
    ensures
        s@ == bat_script(title@, opt_str_view(path), source_line@),
{
    let quote: Vec<char> = vec!['"'];
    let apos: Vec<char> = vec!['\''];
    assert(quote@ =~= seq!['"']);
    assert(apos@ =~= seq!['\'']);
    let t = replace_exec(&chars_of(title), &quote, &apos);
    let src = replace_exec(&chars_of(source_line), &quote, &apos);
    let mut s = String::new();
    push_str(
        &mut s,
        "@echo off\r\nchcp 65001 >nul\r\ntitle Driver Doctor Cleanup Helper\r\necho Driver Doctor 临时清理助手\r\necho 计划: ",
    );
    push_chars(&mut s, &t);
    push_str(&mut s, "\r\necho 来源: ");
    push_chars(&mut s, &src);
    push_str(&mut s, "\r\n");
    let ghost before = s@;
    match path {
        Some(p) => {
            push_str(&mut s, "set \"TARGET=");
            push_str(&mut s, p);
            push_str(
                &mut s,
                "\"\r\necho 目标路径: %TARGET%\r\nif exist \"%TARGET%\" (\r\n  start \"\" \"%TARGET%\"\r\n) else (\r\n  echo 目标路径不存在或无权限访问。\r\n)\r\n",
            );
            assert(s@ == before + bat_target_lines(p@));
        },
        None => {
            assert(s@ == before + Seq::<char>::empty());
        },
    }
    push_str(
        &mut s,
        "echo.\r\necho 为避免误删，本脚本默认打开目标位置并展示建议，不静默删除文件。\r\necho 请先确认软件内迁移、自动清理或关闭生成选项，再手动清理。\r\npause\r\n",
    );
    s
}

/// The characters kept in a script file name.
pub open spec fn is_name_char(c: char) -> bool {
    is_alnum(c) || c == '-' || c == '_'
}

/// The name characters of `s`, in order.
pub open spec fn name_chars(s: Seq<char>) -> Seq<char>
    decreases s.len(),
{
    if s.len() == 0 {
        Seq::empty()
    } else if is_name_char(s.last()) {
        name_chars(s.drop_last()).push(s.last())
    } else {
        name_chars(s.drop_last())
    }
}

/// A file-name part: at most 32 ASCII letters, digits, `-` and `_` of `s`, or `plan`.
pub open spec fn safe_name(s: Seq<char>) -> Seq<char> {
    let kept = name_chars(s);
    if kept.len() == 0 {
        seq!['p', 'l', 'a', 'n']
    } else if kept.len() <= 32 {
        kept
    } else {
        kept.take(32)
    }
}

/// The kept characters are all name characters, and a text made only of them is kept whole.
pub proof fn lemma_name_chars(s: Seq<char>)
    ensures
        forall|k: int| 0 <= k < name_chars(s).len() ==> is_name_char(#[trigger] name_chars(s)[k]),
        (forall|k: int| 0 <= k < s.len() ==> is_name_char(#[trigger] s[k])) ==> name_chars(s) == s,
    decreases s.len(),
{
    if s.len() > 0 {
        lemma_name_chars(s.drop_last());
        let p = name_chars(s.drop_last());
        if is_name_char(s.last()) {
            assert forall|k: int| 0 <= k < p.push(s.last()).len() implies is_name_char(#[trigger] p.push(s.last())[k]) by {
                if k < p.len() {
                    assert(p.push(s.last())[k] == p[k]);
                }
            }
        }
        if forall|k: int| 0 <= k < s.len() ==> is_name_char(#[trigger] s[k]) {
            assert forall|k: int| 0 <= k < s.drop_last().len() implies is_name_char(#[trigger] s.drop_last()[k]) by {
                assert(s.drop_last()[k] == s[k]);
            }
            assert(is_name_char(s[s.len() - 1]));
            assert(s.drop_last().push(s.last()) == s);
        }
    }
}

/// A safe name has 1 to 32 characters, each an ASCII letter, digit, `-` or `_`, and making
/// it safe again changes nothing.
pub proof fn lemma_safe_name(s: Seq<char>)
    ensures
        1 <= safe_name(s).len() <= 32,
        forall|k: int| 0 <= k < safe_name(s).len() ==> is_name_char(#[trigger] safe_name(s)[k]),
        safe_name(safe_name(s)) == safe_name(s),
{
    let n = safe_name(s);
    lemma_name_chars(s);
    assert forall|k: int| 0 <= k < n.len() implies is_name_char(#[trigger] n[k]) by {
        if name_chars(s).len() > 32 {
            assert(n[k] == name_chars(s)[k]);
        } else if name_chars(s).len() > 0 {
            assert(n[k] == name_chars(s)[k]);
        }
    }
    lemma_name_chars(n);
}

/// A file-name-safe form of a plan title.
pub fn sanitize_bat_name(name: &str) -> (s: String)
    ensures
        s@ == safe_name(name@),
{
    let v = chars_of(name);
    let mut kept: Vec<char> = Vec::new();
    let mut i: usize = 0;
    while i < v.len()
        invariant
            i <= v.len(),
            kept@ == name_chars(v@.take(i as int)),
        decreases v.len() - i,
    {
        let c = v[i];
        assert(v@.take(i + 1).drop_last() == v@.take(i as int));
        if ('a' <= c && c <= 'z') || ('A' <= c && c <= 'Z') || ('0' <= c && c <= '9') || c == '-'
            || c == '_' {
            kept.push(c);
        }
        i += 1;
    }
    assert(v@.take(v.len() as int) == v@);
    if kept.len() == 0 {
        let p: Vec<char> = vec!['p', 'l', 'a', 'n'];
        assert(p@ =~= seq!['p', 'l', 'a', 'n']);
        string_of(&p)
    } else if kept.len() <= 32 {
        string_of(&kept)
    } else {
        string_of(&slice(&kept, 0, 32))
    }
}

/// The file name of the temporary script for the plan item at `index`.
pub open spec fn bat_file_name(index: nat, title: Seq<char>) -> Seq<char> {
    "driver_doctor_cleanup_"@ + dec(index + 1) + "_"@ + safe_name(title) + ".bat"@
}

/// `driver_doctor_cleanup_{index + 1}_{safe title}.bat`.
pub fn cleanup_bat_file_name(index: usize, title: &str) -> (s: String)
    ensures
        s@ == bat_file_name(index as nat, title@),
{
    let mut s = String::new();
    push_str(&mut s, "driver_doctor_cleanup_");
    push_dec(&mut s, index as u128 + 1);
    push_str(&mut s, "_");
    let n = sanitize_bat_name(title);
    push_str(&mut s, n.as_str());
    push_str(&mut s, ".bat");
    s
}

/// The scope note added to the diagnostic document for a path that could not be scanned.
pub open spec fn skipped_scope_text(round: nat, path: Seq<char>, reason: Seq<char>) -> Seq<char> {
    "\n\n## skipped_child_scope round="@ + dec(round) + " path=\""@ + path + "\"\nreason=\""@
        + quote_safe(reason) + "\"\n"@
}

/// Records in the diagnostic document that `path` was skipped, and why.
pub fn append_skipped_health_check_scope(rag: &mut String, round: u32, path: &str, reason: &str)
    ensures
        final(rag)@ == old(rag)@ + skipped_scope_text(round as nat, path@, reason@),
{
    let quote: Vec<char> = vec!['"'];
    let apos: Vec<char> = vec!['\''];
    assert(quote@ =~= seq!['"']);
    assert(apos@ =~= seq!['\'']);
    let r = replace_exec(&chars_of(reason), &quote, &apos);
    push_str(rag, "\n\n## skipped_child_scope round=");
    push_dec(rag, round as u128);
    push_str(rag, " path=\"");
    push_str(rag, path);
    push_str(rag, "\"\nreason=\"");
    push_chars(rag, &r);
    push_str(rag, "\"\n");
}

/// A cleanup action offered for one line of a cleanup plan.
pub struct CleanupBatAction {
    pub title: String,
    pub path: Option<String>,
    pub script: String,
}

/// What a cleanup action holds, as plain sequences.
pub struct ActionSpec {
    pub title: Seq<char>,
    pub path: Option<Seq<char>>,
    pub script: Seq<char>,
}

impl CleanupBatAction {
    /// The action as plain sequences.
    pub open spec fn spec(&self) -> ActionSpec {
        ActionSpec { title: self.title@, path: opt_view(self.path), script: self.script@ }
    }
}

/// A trimmed plan line that may describe an action: a table row, a list item or a numbered item.
pub open spec fn is_candidate(t: Seq<char>) -> bool {
    ||| starts_with(t, seq!['|'])
    ||| starts_with(t, seq!['-', ' '])
    ||| starts_with(t, seq!['*', ' '])
    ||| (t.len() > 0 && is_digit(t[0]))
}

/// The action a plan line describes, if any.
pub open spec fn line_action(line: Seq<char>) -> Option<ActionSpec> {
    let t = trim(line);
    if t.len() == 0 || is_table_sep(t) || !is_candidate(t) || action_title(t).len() == 0 {
        None
    } else {
        Some(
            ActionSpec {
                title: action_title(t),
                path: windows_path(t),
                script: bat_script(action_title(t), windows_path(t), t),
            },
        )
    }
}

/// The actions of a list of lines, in order.
pub open spec fn line_actions(ls: Seq<Seq<char>>) -> Seq<ActionSpec>
    decreases ls.len(),
{
    if ls.len() == 0 {
        Seq::empty()
    } else {
        match line_action(ls.last()) {
            Some(a) => line_actions(ls.drop_last()).push(a),
            None => line_actions(ls.drop_last()),
        }
    }
}

/// The actions of a cleanup plan: those of its lines, in order, at most 12.
pub open spec fn plan_actions(markdown: Seq<char>) -> Seq<ActionSpec> {
    let all = line_actions(lines(markdown));
    if all.len() <= 12 {
        all
    } else {
        all.take(12)
    }
}

/// A line whose trimmed text opens like a plan item (a digit, `- `, `* `, or a `|` row that
/// is not a separator) and has a title describes an action with that title and the Windows
/// path it names.
pub proof fn lemma_item_lines_act(line: Seq<char>)
    requires
        trim(line).len() > 0,
        ('0' <= trim(line)[0] && trim(line)[0] <= '9') || (trim(line).len() >= 2 && (trim(line)[0] == '-'
            || trim(line)[0] == '*') && trim(line)[1] == ' ') || (trim(line)[0] == '|' && exists|k: int|
            0 <= k < trim(line).len() && !is_sep_char(#[trigger] trim(line)[k])),
        action_title(trim(line)).len() > 0,
    ensures
        line_action(line) matches Some(a) && a.title == action_title(trim(line)) && a.path == windows_path(
            trim(line),
        ),
{
    let t = trim(line);
    if t.len() >= 2 && (t[0] == '-' || t[0] == '*') && t[1] == ' ' {
        assert(t.subrange(0, 2) =~= seq![t[0], ' ']);
    }
    if t[0] == '|' {
        assert(t.subrange(0, 1) =~= seq!['|']);
    }
}

/// No newline means no place for one.
proof fn lemma_no_newline(s: Seq<char>, i: int)
    requires
        0 <= i,
        forall|k: int| 0 <= k < s.len() ==> s[k] != '\n',
    ensures
        crate::text::find_from(s, seq!['\n'], i) is None,
    decreases s.len() - i,
{
    if i + 1 <= s.len() {
        assert(s.subrange(i, i + 1)[0] == s[i]);
        lemma_no_newline(s, i + 1);
    }
}

/// A one-line plan that is a numbered item with a title gives exactly one action, that of
/// its line.
pub proof fn lemma_numbered_plan(markdown: Seq<char>)
    requires
        forall|k: int| 0 <= k < markdown.len() ==> markdown[k] != '\n',
        trim(markdown).len() > 0,
        '0' <= trim(markdown)[0] && trim(markdown)[0] <= '9',
        action_title(trim(markdown)).len() > 0,
    ensures
        plan_actions(markdown).len() == 1,
        plan_actions(markdown)[0].title == action_title(trim(markdown)),
        plan_actions(markdown)[0].path == windows_path(trim(markdown)),
{
    lemma_no_newline(markdown, 0);
    assert(markdown.len() > 0);
    assert(lines(markdown) == seq![markdown]);
    lemma_item_lines_act(markdown);
    let ls = seq![markdown];
    assert(ls.drop_last() =~= Seq::<Seq<char>>::empty());
    assert(ls.last() == markdown);
    assert(line_actions(ls.drop_last()) == Seq::<ActionSpec>::empty());
    let a = line_action(markdown)->0;
    assert(line_actions(ls) =~= seq![a]);
}

/// The action one plan line describes.
pub fn cleanup_action_of_line(line: &Vec<char>) -> (r: Option<CleanupBatAction>)
    ensures
        r matches Some(a) ==> line_action(line@) == Some(a.spec()),
        r is None ==> line_action(line@) is None,
{
    let t = trim_chars(line);
    if t.len() == 0 || sep_chars(&t) {
        return None;
    }
    let bar: Vec<char> = vec!['|'];
    let dash: Vec<char> = vec!['-', ' '];
    let star: Vec<char> = vec!['*', ' '];
    assert(bar@ =~= seq!['|']);
    assert(dash@ =~= seq!['-', ' ']);
    assert(star@ =~= seq!['*', ' ']);
    let candidate = starts_with_exec(&t, &bar) || starts_with_exec(&t, &dash) || starts_with_exec(
        &t,
        &star,
    ) || ('0' <= t[0] && t[0] <= '9');
    if !candidate {
        return None;
    }
    let title = title_chars(&t);
    if title.len() == 0 {
        return None;
    }
    let path = path_chars(&t);
    let title_s = string_of(&title);
    let source = string_of(&t);
    let (path_s, script) = match path {
        Some(p) => {
            let ps = string_of(&p);
            let script = build_cleanup_bat_script(title_s.as_str(), Some(ps.as_str()), source.as_str());
            (Some(ps), script)
        },
        None => {
            let script = build_cleanup_bat_script(title_s.as_str(), None, source.as_str());
            (None, script)
        },
    };
    Some(CleanupBatAction { title: title_s, path: path_s, script })
}

/// The cleanup actions of a plan: one per table row or list item that names something,
/// at most 12.
pub fn cleanup_bat_actions(markdown: &str) -> (r: Vec<CleanupBatAction>)
    ensures
        r@.len() == plan_actions(markdown@).len(),
        forall|i: int| 0 <= i < r@.len() ==> #[trigger] r@[i].spec() == plan_actions(markdown@)[i],
{
    let v = chars_of(markdown);
    let ls = lines_exec(&v);
    let ghost lsv = lines(v@);
    let mut acts: Vec<CleanupBatAction> = Vec::new();
    let mut i: usize = 0;
    assert(lsv.take(0) =~= Seq::<Seq<char>>::empty());
    while i < ls.len()
        invariant
            i <= ls.len() == lsv.len(),
            lsv == lines(v@),
            forall|k: int| 0 <= k < ls@.len() ==> #[trigger] ls@[k]@ == lsv[k],
            acts@.len() == line_actions(lsv.take(i as int)).len(),
            forall|k: int|
                0 <= k < acts@.len() ==> #[trigger] acts@[k].spec() == line_actions(
                    lsv.take(i as int),
                )[k],
        decreases ls.len() - i,
    {
        assert(lsv.take(i + 1).drop_last() == lsv.take(i as int));
        assert(lsv.take(i + 1).last() == lsv[i as int]);
        match cleanup_action_of_line(&ls[i]) {
            Some(a) => {
                acts.push(a);
            },
            None => {},
        }
        i += 1;
    }
    assert(lsv.take(ls.len() as int) == lsv);
    if acts.len() > 12 {
        acts.truncate(12);
    }
    acts
}

} // verus!
