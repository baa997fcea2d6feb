//! The browsing state of the window: what is listed, how it is sorted, which folded groups
//! are open, and the texts of the list's cells and headers.
use vstd::prelude::*;
use crate::entries::{clone_entry, drive_label, percent_text, push_percent, used_of, DriveInfo, ScanEntry, Share};
use crate::format::{format_size, size_text};
use crate::structure::{compact_scan_entries, folded_of, folded_text, sizes, sum, visible_of};
use crate::ai::views;
use crate::rank::{before, is_ranking, lemma_is_the_ranking, lemma_lex_order, lemma_ranking_exists, lemma_reordered_multiset, lex_less, lex_less_exec, rank, ranking, reordered, RankKey};
use crate::text::{chars_of, dec, push_dec, push_str};

verus! {

/// A sortable column of the directory table.
#[derive(Clone, Copy, Debug, PartialEq, Eq, Structural)]
pub enum SortColumn {
    Name,
    Size,
    Percent,
    FileCount,
}

/// The direction of a sort.
#[derive(Clone, Copy, Debug, PartialEq, Eq, Structural)]
pub enum SortPhase {
    Asc,
    Desc,
}

/// The columns of the directory table with their titles.
pub fn directory_table_columns() -> (cols: Vec<(SortColumn, &'static str)>)
    ensures
        cols@.len() == 4,
        cols@[0].0 == SortColumn::Name && cols@[0].1@ == "名称"@,
        cols@[1].0 == SortColumn::Size && cols@[1].1@ == "占用"@,
        cols@[2].0 == SortColumn::Percent && cols@[2].1@ == "占比"@,
        cols@[3].0 == SortColumn::FileCount && cols@[3].1@ == "文件"@,
{
    let mut cols: Vec<(SortColumn, &'static str)> = Vec::new();
    cols.push((SortColumn::Name, "名称"));
    cols.push((SortColumn::Size, "占用"));
    cols.push((SortColumn::Percent, "占比"));
    cols.push((SortColumn::FileCount, "文件"));
    cols
}

/// The place of a column in the table.
pub open spec fn col_index(c: SortColumn) -> int {
    match c {
        SortColumn::Name => 0,
        SortColumn::Size => 1,
        SortColumn::Percent => 2,
        SortColumn::FileCount => 3,
    }
}

/// The value of a share as a fraction: its numerator over a positive denominator (0/1 when
/// the whole is 0).
pub open spec fn share_num(s: Share) -> int {
    if s.whole == 0 {
        0
    } else {
        s.part as int
    }
}

/// The denominator of a share's fraction.
pub open spec fn share_den(s: Share) -> int {
    if s.whole == 0 {
        1
    } else {
        s.whole as int
    }
}

/// Share `a` is smaller than share `b`.
pub open spec fn share_less(a: Share, b: Share) -> bool {
    share_num(a) * share_den(b) < share_num(b) * share_den(a)
}

/// The sort key of a row: its name, size, file count and share, and the column and direction
/// of the sort.
pub struct RowKey {
    pub name: String,
    pub size: u64,
    pub files: u64,
    pub share: Share,
    pub col: SortColumn,
    pub desc: bool,
}

/// Row `a` comes before row `b` by column `col` ascending.
pub open spec fn col_less(a: RowKey, b: RowKey, col: SortColumn) -> bool {
    match col {
        SortColumn::Name => lex_less(a.name@, b.name@),
        SortColumn::Size => a.size < b.size,
        SortColumn::FileCount => a.files < b.files,
        SortColumn::Percent => share_less(a.share, b.share),
    }
}

/// Fraction order is transitive, and so is fraction equality.
pub proof fn lemma_fraction_order(an: int, ad: int, bn: int, bd: int, cn: int, cd: int)
    requires
        ad > 0,
        bd > 0,
        cd > 0,
    ensures
        an * bd < bn * ad && bn * cd < cn * bd ==> an * cd < cn * ad,
        an * bd == bn * ad && bn * cd == cn * bd ==> an * cd == cn * ad,
        an * bd < bn * ad && bn * cd == cn * bd ==> an * cd < cn * ad,
        an * bd == bn * ad && bn * cd < cn * bd ==> an * cd < cn * ad,
{
    assert(an * bd < bn * ad && bn * cd < cn * bd ==> an * cd < cn * ad) by (nonlinear_arith)
        requires
            ad > 0,
            bd > 0,
            cd > 0,
    ;
    assert(an * bd == bn * ad && bn * cd == cn * bd ==> an * cd == cn * ad) by (nonlinear_arith)
        requires
            ad > 0,
            bd > 0,
            cd > 0,
    ;
    assert(an * bd < bn * ad && bn * cd == cn * bd ==> an * cd < cn * ad) by (nonlinear_arith)
        requires
            ad > 0,
            bd > 0,
            cd > 0,
    ;
    assert(an * bd == bn * ad && bn * cd < cn * bd ==> an * cd < cn * ad) by (nonlinear_arith)
        requires
            ad > 0,
            bd > 0,
            cd > 0,
    ;
}

/// Column order is a strict weak order: rows tie when neither comes first, and ties are
/// transitive.
pub proof fn lemma_col_order(a: RowKey, b: RowKey, c: RowKey, col: SortColumn)
    ensures
        !col_less(a, a, col),
        col_less(a, b, col) && col_less(b, c, col) ==> col_less(a, c, col),
        col_less(a, b, col) ==> !col_less(b, a, col),
        (!col_less(a, b, col) && !col_less(b, a, col) && !col_less(b, c, col) && !col_less(c, b, col))
            ==> (!col_less(a, c, col) && !col_less(c, a, col)),
        (col_less(a, b, col) && !col_less(b, c, col) && !col_less(c, b, col)) ==> col_less(a, c, col),
        (!col_less(a, b, col) && !col_less(b, a, col) && col_less(b, c, col)) ==> col_less(a, c, col),
{
    match col {
        SortColumn::Name => {
            lemma_lex_order(a.name@, b.name@, c.name@);
            lemma_lex_order(b.name@, c.name@, a.name@);
            lemma_lex_order(c.name@, a.name@, b.name@);
            lemma_lex_order(a.name@, c.name@, b.name@);
        },
        SortColumn::Percent => {
            let (an, ad) = (share_num(a.share), share_den(a.share));
            let (bn, bd) = (share_num(b.share), share_den(b.share));
            let (cn, cd) = (share_num(c.share), share_den(c.share));
            lemma_fraction_order(an, ad, bn, bd, cn, cd);
            lemma_fraction_order(cn, cd, bn, bd, an, ad);
            lemma_fraction_order(an, ad, cn, cd, bn, bd);
            lemma_fraction_order(bn, bd, an, ad, cn, cd);
            lemma_fraction_order(cn, cd, an, ad, bn, bd);
            lemma_fraction_order(bn, bd, cn, cd, an, ad);
        },
        _ => {},
    }
}

impl RankKey for RowKey {
    open spec fn precedes(self, other: Self) -> bool {
        if self.col != other.col {
            col_index(self.col) < col_index(other.col)
        } else if self.desc != other.desc {
            !self.desc
        } else if self.desc {
            col_less(other, self, self.col)
        } else {
            col_less(self, other, self.col)
        }
    }

    proof fn lemma_order(a: Self, b: Self, c: Self) {
        lemma_col_order(a, b, c, a.col);
        lemma_col_order(c, b, a, a.col);
        lemma_col_order(b, a, c, a.col);
        lemma_col_order(a, c, b, a.col);
        lemma_col_order(b, c, a, a.col);
        lemma_col_order(c, a, b, a.col);
    }

    fn precedes_exec(&self, other: &Self) -> (r: bool) {
        if self.col != other.col {
            return col_index_exec(self.col) < col_index_exec(other.col);
        }
        if self.desc != other.desc {
            return !self.desc;
        }
        if self.desc {
            col_less_exec(other, self, self.col)
        } else {
            col_less_exec(self, other, self.col)
        }
    }
}

/// The place of a column in the table.
fn col_index_exec(c: SortColumn) -> (i: u8)
    ensures
        i == col_index(c),
{
    match c {
        SortColumn::Name => 0,
        SortColumn::Size => 1,
        SortColumn::Percent => 2,
        SortColumn::FileCount => 3,
    }
}

/// Whether row `a` comes before row `b` by column `col` ascending.
fn col_less_exec(a: &RowKey, b: &RowKey, col: SortColumn) -> (r: bool)
    ensures
        r == col_less(*a, *b, col),
{
    match col {
        SortColumn::Name => lex_less_exec(&chars_of(a.name.as_str()), &chars_of(b.name.as_str())),
        SortColumn::Size => a.size < b.size,
        SortColumn::FileCount => a.files < b.files,
        SortColumn::Percent => {
            let an: u128 = if a.share.whole == 0 {
                0
            } else {
                a.share.part as u128
            };
            let ad: u128 = if a.share.whole == 0 {
                1
            } else {
                a.share.whole as u128
            };
            let bn: u128 = if b.share.whole == 0 {
                0
            } else {
                b.share.part as u128
            };
            let bd: u128 = if b.share.whole == 0 {
                1
            } else {
                b.share.whole as u128
            };
            assert(an * bd <= 0xffff_ffff_ffff_ffff * 0xffff_ffff_ffff_ffff) by (nonlinear_arith)
                requires
                    an <= 0xffff_ffff_ffff_ffff,
                    bd <= 0xffff_ffff_ffff_ffff,
            ;
            assert(bn * ad <= 0xffff_ffff_ffff_ffff * 0xffff_ffff_ffff_ffff) by (nonlinear_arith)
                requires
                    bn <= 0xffff_ffff_ffff_ffff,
                    ad <= 0xffff_ffff_ffff_ffff,
            ;
            an * bd < bn * ad
        },
    }
}

/// What the window lists.
#[derive(Clone, Copy, Debug, PartialEq, Eq, Structural)]
pub enum ViewMode {
    Home,
    Directory,
    FullScan,
}

/// A tab of the AI panel.
#[derive(Clone, Copy, Debug, PartialEq, Eq, Structural)]
pub enum AiPanelTab {
    FolderAnalysis,
    CleanupPlan,
}

/// What an AI task produces.
#[derive(Clone, Copy, Debug, PartialEq, Eq, Structural)]
pub enum AiTaskTarget {
    Analysis,
    Cleanup,
    HealthCheck,
}

/// The tab that shows a task's output: the cleanup tab for cleanup plans, the analysis tab
/// otherwise.
pub open spec fn tab_of(target: AiTaskTarget) -> AiPanelTab {
    if target == AiTaskTarget::Cleanup {
        AiPanelTab::CleanupPlan
    } else {
        AiPanelTab::FolderAnalysis
    }
}

/// The tab that shows a task's output.
pub fn ai_tab_for_target(target: AiTaskTarget) -> (tab: AiPanelTab)
    ensures
        tab == tab_of(target),
{
    match target {
        AiTaskTarget::Analysis | AiTaskTarget::HealthCheck => AiPanelTab::FolderAnalysis,
        AiTaskTarget::Cleanup => AiPanelTab::CleanupPlan,
    }
}

/// A click on the header of `col`: an ascending sort on it turns descending, a descending
/// one turns the sort off, and anything else sorts ascending by it.
pub open spec fn sort_click(c: Option<SortColumn>, p: Option<SortPhase>, col: SortColumn) -> (Option<SortColumn>, Option<SortPhase>) {
    if c == Some(col) && p == Some(SortPhase::Asc) {
        (c, Some(SortPhase::Desc))
    } else if c == Some(col) && p == Some(SortPhase::Desc) {
        (None, None)
    } else {
        (Some(col), Some(SortPhase::Asc))
    }
}

/// Three clicks on one header come back to where they started, from the unsorted listing
/// or from either sort on that column; and a click on a column the listing is not sorted by
/// sorts ascending by it.
pub proof fn lemma_sort_click_cycle(c: Option<SortColumn>, p: Option<SortPhase>, col: SortColumn)
    ensures
        (c is None && p is None) || (c == Some(col) && p is Some) ==> {
            let s1 = sort_click(c, p, col);
            let s2 = sort_click(s1.0, s1.1, col);
            sort_click(s2.0, s2.1, col) == (c, p)
        },
        c != Some(col) ==> sort_click(c, p, col) == (Some(col), Some(SortPhase::Asc)),
{
    let asc = (Some(col), Some(SortPhase::Asc));
    let desc = (Some(col), Some(SortPhase::Desc));
    let off = (None::<SortColumn>, None::<SortPhase>);
    assert(sort_click(off.0, off.1, col) == asc);
    assert(sort_click(asc.0, asc.1, col) == desc);
    assert(sort_click(desc.0, desc.1, col) == off);
    if c == Some(col) && p is Some {
        if p->0 == SortPhase::Asc {
            assert((c, p) == asc);
        } else {
            assert((c, p) == desc);
        }
    }
}

/// The header text of a column: its title, with `▲` or `▼` when the list is sorted by it.
pub open spec fn header_text(col: SortColumn, c: Option<SortColumn>, p: Option<SortPhase>, title: Seq<char>) -> Seq<char> {
    title + if c == Some(col) {
        match p {
            Some(SortPhase::Asc) => " ▲"@,
            Some(SortPhase::Desc) => " ▼"@,
            None => ""@,
        }
    } else {
        ""@
    }
}

/// The header text of a column.
pub fn header_label(col: SortColumn, sort_col: Option<SortColumn>, sort_phase: Option<SortPhase>, text: &str) -> (s: String)
    ensures
        s@ == header_text(col, sort_col, sort_phase, text@),
{
    let mut s = String::new();
    push_str(&mut s, text);
    if sort_col == Some(col) {
        match sort_phase {
            Some(SortPhase::Asc) => push_str(&mut s, " ▲"),
            Some(SortPhase::Desc) => push_str(&mut s, " ▼"),
            None => push_str(&mut s, ""),
        }
    } else {
        push_str(&mut s, "");
    }
    s
}

/// The key of the folded group of the current listing.
pub open spec fn folded_key_text(mode: ViewMode, scan_path: Seq<char>) -> Seq<char> {
    match mode {
        ViewMode::Home => "home"@,
        ViewMode::Directory => "dir:"@ + scan_path,
        ViewMode::FullScan => "full-scan"@,
    }
}

/// The size cell of a row: a placeholder while sizes are computed.
pub open spec fn size_cell_text(computing: bool, bytes: u64) -> Seq<char> {
    if computing {
        "计算中…"@
    } else {
        size_text(bytes as nat)
    }
}

/// The size cell of a row.
pub fn format_size_cell(computing: bool, bytes: u64) -> (s: String)
    ensures
        s@ == size_cell_text(computing, bytes),
{
    if computing {
        String::from_str("计算中…")
    } else {
        format_size(bytes)
    }
}

/// The file-count cell of a row: a placeholder while sizes are computed.
pub open spec fn count_cell_text(computing: bool, count: u64) -> Seq<char> {
    if computing {
        "待定"@
    } else {
        dec(count as nat)
    }
}

/// The file-count cell of a row.
pub fn format_count_cell(computing: bool, count: u64) -> (s: String)
    ensures
        s@ == count_cell_text(computing, count),
{
    if computing {
        String::from_str("待定")
    } else {
        let mut s = String::new();
        push_dec(&mut s, count as u128);
        s
    }
}

/// The share cell of a row: a placeholder while sizes are computed.
pub open spec fn percent_cell_text(computing: bool, share: Share) -> Seq<char> {
    if computing {
        "…"@
    } else {
        percent_text(share, 2) + "%"@
    }
}

/// The share cell of a row.
pub fn format_percent_cell(computing: bool, share: Share) -> (s: String)
    ensures
        s@ == percent_cell_text(computing, share),
{
    if computing {
        String::from_str("…")
    } else {
        let mut s = String::new();
        push_percent(&mut s, share, 2);
        push_str(&mut s, "%");
        s
    }
}

/// Where going up leads.
pub enum UpAction {
    Home,
    Open(String),
}

/// Going up from a folder listing opens its parent, unless there is none or it is a drive
/// root (at most 3 bytes with a `:`), which leads home; from elsewhere it leads home.
pub open spec fn up_target(mode: ViewMode, parent: Option<Seq<char>>) -> Option<Seq<char>> {
    if mode == ViewMode::Directory {
        match parent {
            Some(p) => if p.len() == 0 || (crate::structure::byte_len(p) <= 3 && crate::text::contains(p, seq![':'])) {
                None
            } else {
                Some(p)
            },
            None => None,
        }
    } else {
        None
    }
}

/// Where going up leads, given the parent path of the current folder.
pub fn navigate_up_action(mode: ViewMode, parent: Option<&str>) -> (a: UpAction)
    ensures
        match up_target(mode, match parent {
            Some(p) => Some(p@),
            None => None,
        }) {
            Some(p) => a matches UpAction::Open(x) && x@ == p,
            None => a is Home,
        },
{
    if mode != ViewMode::Directory {
        return UpAction::Home;
    }
    match parent {
        None => UpAction::Home,
        Some(p) => {
            let v = chars_of(p);
            if v.len() == 0 {
                return UpAction::Home;
            }
            let colon: Vec<char> = vec![':'];
            assert(colon@ =~= seq![':']);
            if crate::structure::byte_len_exec(&v) <= 3 && crate::text::contains_exec(&v, &colon) {
                UpAction::Home
            } else {
                UpAction::Open(String::from_str(p))
            }
        },
    }
}

/// Pixels read as BGRA with their first and third bytes swapped (RGBA); an incomplete last
/// pixel is left as it is.
pub open spec fn rgba_of(px: Seq<u8>) -> Seq<u8> {
    Seq::new(
        px.len(),
        |i: int|
            if i - i % 4 + 4 > px.len() {
                px[i]
            } else if i % 4 == 0 {
                px[i + 2]
            } else if i % 4 == 2 {
                px[i - 2]
            } else {
                px[i]
            },
    )
}

/// Turns BGRA pixels into RGBA.
pub fn bgra_to_rgba(px: Vec<u8>) -> (out: Vec<u8>)
    ensures
        out@ == rgba_of(px@),
{
    let ghost p0 = px@;
    let mut px = px;
    let n = px.len();
    let mut i: usize = 0;
    while n - i >= 4
        invariant
            n == p0.len() == px@.len(),
            i % 4 == 0,
            i <= n,
            forall|j: int| 0 <= j < i ==> #[trigger] px@[j] == rgba_of(p0)[j],
            forall|j: int| i <= j < n ==> #[trigger] px@[j] == p0[j],
        decreases n - i,
    {
        let b = px[i];
        let r = px[i + 2];
        px.set(i, r);
        px.set(i + 2, b);
        assert forall|j: int| 0 <= j < i + 4 implies #[trigger] px@[j] == rgba_of(p0)[j] by {
            if j >= i {
                assert(j - j % 4 == i);
            }
        }
        i = i + 4;
    }
    assert forall|j: int| i <= j < n implies #[trigger] px@[j] == rgba_of(p0)[j] by {
        assert(j - j % 4 + 4 > n);
    }
    assert(px@ =~= rgba_of(p0));
    px
}

/// The browsing state of the window.
pub struct BrowserState {
    pub view_mode: ViewMode,
    pub scanning: bool,
    pub scan_path: String,
    pub entries: Vec<ScanEntry>,
    pub drives: Vec<DriveInfo>,
    pub sort_col: Option<SortColumn>,
    pub sort_phase: Option<SortPhase>,
    pub expanded_folded: Vec<String>,
}

/// The drives are listed: the home view, not scanning.
pub open spec fn lists_drives(b: BrowserState) -> bool {
    b.view_mode == ViewMode::Home && !b.scanning
}

/// `e` is the list entry of drive `d`.
pub open spec fn drive_entry_ok(e: ScanEntry, d: DriveInfo) -> bool {
    &&& e.name@ == drive_label(d.letter@)
    &&& e.path == d.path
    &&& e.is_dir
    &&& e.size == used_of(d.total_bytes, d.free_bytes)
    &&& e.allocated == d.total_bytes
    &&& e.file_count == 0
    &&& e.folder_count == 0
    &&& e.percent == (Share { part: used_of(d.total_bytes, d.free_bytes), whole: d.total_bytes })
}

/// The rows before sorting: the drives' entries at home, the scanned entries otherwise.
pub open spec fn base_rows_ok(b: BrowserState, base: Seq<ScanEntry>) -> bool {
    if lists_drives(b) {
        base.len() == b.drives@.len() && forall|i: int| 0 <= i < base.len() ==> drive_entry_ok(#[trigger] base[i], b.drives@[i])
    } else {
        base == b.entries@
    }
}

/// The sort keys of rows for a column and direction.
pub open spec fn row_keys(rows: Seq<ScanEntry>, col: SortColumn, desc: bool) -> Seq<RowKey> {
    Seq::new(
        rows.len(),
        |i: int| RowKey { name: rows[i].name, size: rows[i].size, files: rows[i].file_count, share: rows[i].percent, col, desc },
    )
}

/// The rows sorted (stably) by the sort column in the sort direction, when there is one.
pub open spec fn sorted_rows(base: Seq<ScanEntry>, c: Option<SortColumn>, p: Option<SortPhase>) -> Seq<ScanEntry> {
    match (c, p) {
        (Some(col), Some(ph)) => {
            let o = ranking(row_keys(base, col, ph == SortPhase::Desc));
            Seq::new(base.len(), |k: int| base[o[k] as int])
        },
        _ => base,
    }
}

/// The rows stand in the order of `col` in the direction `ph`: ascending, no row comes
/// before one it is smaller than; descending, no row comes before one it is larger than.
pub open spec fn in_column_order(rows: Seq<ScanEntry>, col: SortColumn, ph: SortPhase) -> bool {
    forall|i: int, j: int|
        #![trigger row_keys(rows, col, false)[i], row_keys(rows, col, false)[j]]
        0 <= i < j < rows.len() ==> if ph == SortPhase::Asc {
            !col_less(row_keys(rows, col, false)[j], row_keys(rows, col, false)[i], col)
        } else {
            !col_less(row_keys(rows, col, false)[i], row_keys(rows, col, false)[j], col)
        }
}

/// Sorting by a column lists every row exactly once, in that column's order.
pub proof fn lemma_sorted_rows(base: Seq<ScanEntry>, col: SortColumn, ph: SortPhase)
    requires
        base.len() <= usize::MAX,
    ensures
        sorted_rows(base, Some(col), Some(ph)).to_multiset() == base.to_multiset(),
        in_column_order(sorted_rows(base, Some(col), Some(ph)), col, ph),
{
    let desc = ph == SortPhase::Desc;
    let keys = row_keys(base, col, desc);
    lemma_ranking_exists(keys);
    let o = ranking(keys);
    lemma_reordered_multiset(keys, o, base);
    let sorted = sorted_rows(base, Some(col), Some(ph));
    assert(sorted == reordered(base, o));
    let r = row_keys(sorted, col, false);
    assert forall|i: int, j: int| 0 <= i < j < sorted.len() implies (if ph == SortPhase::Asc {
        !col_less(r[j], r[i], col)
    } else {
        !col_less(r[i], r[j], col)
    }) by {
        assert(before(keys, o[i] as int, o[j] as int));
        lemma_col_order(r[i], r[j], r[i], col);
        lemma_col_order(keys[o[i] as int], keys[o[j] as int], keys[o[i] as int], col);
    }
}

/// The value of a row's share, as a numerator and a positive denominator: `part / whole`,
/// or 0 when the whole is 0.
pub open spec fn share_value(s: Share) -> (int, int) {
    if s.whole == 0 {
        (0, 1)
    } else {
        (s.part as int, s.whole as int)
    }
}

/// After sorting by a column, no row stands after one it is strictly below in that column's
/// ascending order, or strictly above in descending order: names by code points, sizes and
/// file counts by value, shares by the fraction `part / whole` whatever the wholes.
pub proof fn lemma_sorted_by_values(base: Seq<ScanEntry>, col: SortColumn, ph: SortPhase, i: int, j: int)
    requires
        base.len() <= usize::MAX,
        0 <= i < j < base.len(),
    ensures
        ({
            let s = sorted_rows(base, Some(col), Some(ph));
            let (lo, hi) = if ph == SortPhase::Asc {
                (s[j], s[i])
            } else {
                (s[i], s[j])
            };
            &&& col == SortColumn::Name ==> !lex_less(lo.name@, hi.name@)
            &&& col == SortColumn::Size ==> !(lo.size < hi.size)
            &&& col == SortColumn::FileCount ==> !(lo.file_count < hi.file_count)
            &&& col == SortColumn::Percent ==> !(share_value(lo.percent).0 * share_value(hi.percent).1
                < share_value(hi.percent).0 * share_value(lo.percent).1)
        }),
{
    lemma_sorted_rows(base, col, ph);
    let s = sorted_rows(base, Some(col), Some(ph));
    let r = row_keys(s, col, false);
    assert(r[i].share == s[i].percent && r[j].share == s[j].percent);
    assert(r[i].name == s[i].name && r[j].name == s[j].name);
}

/// One row of the directory table.
pub enum FileListRow {
    /// An entry, with its place in the listed rows.
    Entry { entry: ScanEntry, source_index: usize },
    /// The group of folded entries.
    Folded { key: String, label: String, count: usize, size: u64 },
}

/// A row of the directory table as plain values.
pub enum RowView {
    Entry(ScanEntry, nat),
    Folded(Seq<char>, Seq<char>, nat, nat),
}

impl FileListRow {
    /// The row as plain values.
    pub open spec fn view(&self) -> RowView {
        match self {
            FileListRow::Entry { entry, source_index } => RowView::Entry(*entry, *source_index as nat),
            FileListRow::Folded { key, label, count, size } => RowView::Folded(key@, label@, *count as nat, *size as nat),
        }
    }
}

/// Every row as an entry row.
pub open spec fn entry_rows(rows: Seq<ScanEntry>) -> Seq<RowView> {
    Seq::new(rows.len(), |i: int| RowView::Entry(rows[i], i as nat))
}

/// Some entry of `es` has path `p`.
pub open spec fn has_path(es: Seq<ScanEntry>, p: Seq<char>) -> bool {
    exists|j: int| 0 <= j < es.len() && es[j].path@ == p
}

/// The entry rows, among the first `k`, whose path is that of an entry of `es`.
pub open spec fn rows_with_paths(rows: Seq<ScanEntry>, es: Seq<ScanEntry>, k: int) -> Seq<RowView>
    decreases k,
{
    if k <= 0 {
        Seq::empty()
    } else if has_path(es, rows[k - 1].path@) {
        rows_with_paths(rows, es, k - 1).push(RowView::Entry(rows[k - 1], (k - 1) as nat))
    } else {
        rows_with_paths(rows, es, k - 1)
    }
}

/// The rows of the directory table: every row while the drives are listed, while sizes
/// are computed, for at most 20 rows, or when nothing folds; otherwise the rows shown, the
/// folded group, and (when the group is open) the folded rows.
pub open spec fn table_rows(b: BrowserState, rows: Seq<ScanEntry>, computing: bool) -> Seq<RowView> {
    if lists_drives(b) || computing || rows.len() <= 20 || folded_of(rows).len() == 0 {
        entry_rows(rows)
    } else {
        let fol = folded_of(rows);
        let size = sum(sizes(fol));
        let key = folded_key_text(b.view_mode, b.scan_path@);
        rows_with_paths(rows, visible_of(rows), rows.len() as int) + seq![
            RowView::Folded(key, folded_text(fol.len(), size), fol.len(), size),
        ] + if views(b.expanded_folded@).contains(key) {
            rows_with_paths(rows, fol, rows.len() as int)
        } else {
            Seq::empty()
        }
    }
}

/// Whether an entry's path is that of one of `es`.
fn has_path_exec(es: &Vec<ScanEntry>, p: &String) -> (b: bool)
    ensures
        b == has_path(es@, p@),
{
    let mut j: usize = 0;
    while j < es.len()
        invariant
            j <= es@.len(),
            forall|t: int| 0 <= t < j ==> es@[t].path@ != p@,
        decreases es@.len() - j,
    {
        if es[j].path == *p {
            return true;
        }
        j += 1;
    }
    false
}

/// Appends the entry rows whose path is that of an entry of `es`.
fn push_rows_with_paths(out: &mut Vec<FileListRow>, rows: &Vec<ScanEntry>, es: &Vec<ScanEntry>)
    ensures
        final(out)@.map_values(|r: FileListRow| r.view()) == old(out)@.map_values(|r: FileListRow| r.view()) + rows_with_paths(rows@, es@, rows@.len() as int),
{
    let ghost start = out@.map_values(|r: FileListRow| r.view());
    let mut i: usize = 0;
    while i < rows.len()
        invariant
            i <= rows@.len(),
            out@.map_values(|r: FileListRow| r.view()) == start + rows_with_paths(rows@, es@, i as int),
        decreases rows@.len() - i,
    {
        if has_path_exec(es, &rows[i].path) {
            let ghost before = out@;
            out.push(FileListRow::Entry { entry: clone_entry(&rows[i]), source_index: i });
            assert(out@.map_values(|r: FileListRow| r.view()) =~= before.map_values(|r: FileListRow| r.view()).push(
                RowView::Entry(rows@[i as int], i as nat),
            ));
        }
        i += 1;
    }
}

/// Every row as an entry row.
fn all_entry_rows(rows: &Vec<ScanEntry>) -> (out: Vec<FileListRow>)
    ensures
        out@.map_values(|r: FileListRow| r.view()) == entry_rows(rows@),
{
    let mut out: Vec<FileListRow> = Vec::new();
    let mut i: usize = 0;
    while i < rows.len()
        invariant
            i <= rows@.len(),
            out@.map_values(|r: FileListRow| r.view()) == entry_rows(rows@).take(i as int),
        decreases rows@.len() - i,
    {
        let ghost before = out@;
        out.push(FileListRow::Entry { entry: clone_entry(&rows[i]), source_index: i });
        assert(out@.map_values(|r: FileListRow| r.view()) =~= before.map_values(|r: FileListRow| r.view()).push(
            RowView::Entry(rows@[i as int], i as nat),
        ));
        assert(out@.map_values(|r: FileListRow| r.view()) =~= entry_rows(rows@).take(i + 1));
        i += 1;
    }
    assert(entry_rows(rows@).take(rows@.len() as int) =~= entry_rows(rows@));
    out
}

/// Whether a key is among the open folded groups.
fn key_listed(v: &Vec<String>, k: &String) -> (b: bool)
    ensures
        b == views(v@).contains(k@),
{
    let mut i: usize = 0;
    while i < v.len()
        invariant
            i <= v@.len(),
            forall|j: int| 0 <= j < i ==> v@[j]@ != k@,
        decreases v@.len() - i,
    {
        if v[i] == *k {
            assert(views(v@)[i as int] == k@);
            return true;
        }
        i += 1;
    }
    assert(!views(v@).contains(k@)) by {
        if views(v@).contains(k@) {
            let j = choose|j: int| 0 <= j < views(v@).len() && views(v@)[j] == k@;
            assert(v@[j]@ == k@);
        }
    }
    false
}

/// The test that keeps every key but `key`.
pub open spec fn not_key(key: Seq<char>) -> spec_fn(Seq<char>) -> bool {
    |x: Seq<char>| x != key
}

/// The open folded groups after a click on the group `key`: a listed key is dropped, any
/// other is added at the end.
pub open spec fn toggled(open: Seq<Seq<char>>, key: Seq<char>) -> Seq<Seq<char>> {
    if open.contains(key) {
        open.filter(not_key(key))
    } else {
        open.push(key)
    }
}

/// Keeping the members other than `key` keeps exactly those.
pub proof fn lemma_filter_other(open: Seq<Seq<char>>, key: Seq<char>, x: Seq<char>)
    ensures
        open.filter(not_key(key)).contains(x) <==> (open.contains(x) && x != key),
    decreases open.len(),
{
    reveal(Seq::filter);
    if open.len() > 0 {
        let init = open.drop_last();
        lemma_filter_other(init, key, x);
        let f = init.filter(not_key(key));
        assert(open == init.push(open.last()));
        if open.last() != key {
            assert(open.filter(not_key(key)) == f.push(open.last()));
            if f.contains(x) {
                let j = choose|j: int| 0 <= j < f.len() && f[j] == x;
                assert(f.push(open.last())[j] == x);
            }
            if open.contains(x) && x != key && x != open.last() {
                let j = choose|j: int| 0 <= j < open.len() && open[j] == x;
                assert(init[j] == x);
            }
            if x == open.last() {
                assert(f.push(open.last())[f.len() as int] == x);
            }
        } else {
            assert(open.filter(not_key(key)) == f);
            if open.contains(x) && x != key {
                let j = choose|j: int| 0 <= j < open.len() && open[j] == x;
                assert(init[j] == x);
            }
        }
        if init.contains(x) {
            let j = choose|j: int| 0 <= j < init.len() && init[j] == x;
            assert(open[j] == x);
        }
    }
}

/// A click on a folded group flips whether it is open and leaves the others as they were;
/// so two clicks on it leave the same groups open.
pub proof fn lemma_toggle_twice(open: Seq<Seq<char>>, key: Seq<char>)
    ensures
        toggled(open, key).contains(key) != open.contains(key),
        forall|x: Seq<char>| x != key ==> (#[trigger] toggled(open, key).contains(x) <==> open.contains(x)),
        forall|x: Seq<char>| #[trigger] toggled(toggled(open, key), key).contains(x) <==> open.contains(x),
{
    let t = toggled(open, key);
    assert forall|x: Seq<char>| x != key implies (#[trigger] t.contains(x) <==> open.contains(x)) by {
        toggled_member(open, key, x);
    }
    toggled_member(open, key, key);
    assert forall|x: Seq<char>| #[trigger] toggled(t, key).contains(x) <==> open.contains(x) by {
        toggled_member(open, key, x);
        toggled_member(t, key, x);
    }
}

/// Who is open after one click on `key`.
pub proof fn toggled_member(open: Seq<Seq<char>>, key: Seq<char>, x: Seq<char>)
    ensures
        toggled(open, key).contains(x) <==> if x == key {
            !open.contains(key)
        } else {
            open.contains(x)
        },
{
    if open.contains(key) {
        lemma_filter_other(open, key, x);
    } else {
        if open.contains(x) {
            let j = choose|j: int| 0 <= j < open.len() && open[j] == x;
            assert(open.push(key)[j] == x);
        }
        assert(open.push(key)[open.len() as int] == key);
        if open.push(key).contains(x) && x != key {
            let j = choose|j: int| 0 <= j < open.len() + 1 && open.push(key)[j] == x;
            assert(open[j] == x);
        }
    }
}

impl BrowserState {
    /// Goes back to the drive list `drives`: no folder open, nothing listed, every folded
    /// group closed.
    pub fn go_home(&mut self, drives: Vec<DriveInfo>)
        ensures
            final(self).view_mode == ViewMode::Home,
            final(self).scan_path@ == Seq::<char>::empty(),
            final(self).entries@ == Seq::<ScanEntry>::empty(),
            final(self).expanded_folded@ == Seq::<String>::empty(),
            final(self).drives == drives,
            final(self).scanning == old(self).scanning,
            final(self).sort_col == old(self).sort_col,
            final(self).sort_phase == old(self).sort_phase,
    {
        self.view_mode = ViewMode::Home;
        self.scan_path = String::new();
        self.entries = Vec::new();
        self.expanded_folded = Vec::new();
        self.drives = drives;
    }

    /// Opens the folder `path`, listing `listed` while its sizes are computed.
    pub fn enter_directory(&mut self, path: String, listed: Vec<ScanEntry>)
        ensures
            final(self).view_mode == ViewMode::Directory,
            final(self).scan_path == path,
            final(self).entries == listed,
            final(self).scanning,
            final(self).expanded_folded@ == Seq::<String>::empty(),
            final(self).drives == old(self).drives,
            final(self).sort_col == old(self).sort_col,
            final(self).sort_phase == old(self).sort_phase,
    {
        self.view_mode = ViewMode::Directory;
        self.scan_path = path;
        self.entries = listed;
        self.scanning = true;
        self.expanded_folded = Vec::new();
    }

    /// Starts listing the largest folders of all drives.
    pub fn enter_full_scan(&mut self)
        ensures
            final(self).view_mode == ViewMode::FullScan,
            final(self).entries@ == Seq::<ScanEntry>::empty(),
            final(self).scanning,
            final(self).expanded_folded@ == Seq::<String>::empty(),
            final(self).scan_path == old(self).scan_path,
            final(self).drives == old(self).drives,
            final(self).sort_col == old(self).sort_col,
            final(self).sort_phase == old(self).sort_phase,
    {
        self.view_mode = ViewMode::FullScan;
        self.entries = Vec::new();
        self.scanning = true;
        self.expanded_folded = Vec::new();
    }

    /// A click on the header of `col`.
    pub fn sort_by_column(&mut self, col: SortColumn)
        ensures
            (final(self).sort_col, final(self).sort_phase) == sort_click(old(self).sort_col, old(self).sort_phase, col),
            final(self).view_mode == old(self).view_mode,
            final(self).scanning == old(self).scanning,
            final(self).scan_path == old(self).scan_path,
            final(self).entries == old(self).entries,
            final(self).drives == old(self).drives,
            final(self).expanded_folded == old(self).expanded_folded,
    {
        if self.sort_col == Some(col) && self.sort_phase == Some(SortPhase::Asc) {
            self.sort_phase = Some(SortPhase::Desc);
        } else if self.sort_col == Some(col) && self.sort_phase == Some(SortPhase::Desc) {
            self.sort_col = None;
            self.sort_phase = None;
        } else {
            self.sort_col = Some(col);
            self.sort_phase = Some(SortPhase::Asc);
        }
    }

    /// The key of the folded group of the current listing.
    pub fn folded_key(&self) -> (s: String)
        ensures
            s@ == folded_key_text(self.view_mode, self.scan_path@),
    {
        match self.view_mode {
            ViewMode::Home => String::from_str("home"),
            ViewMode::Directory => {
                let mut s = String::new();
                push_str(&mut s, "dir:");
                push_str(&mut s, self.scan_path.as_str());
                s
            },
            ViewMode::FullScan => String::from_str("full-scan"),
        }
    }

    /// The rows listed, sorted as chosen.
    pub fn display_rows(&self) -> (rows: Vec<ScanEntry>)
        ensures
            exists|base: Seq<ScanEntry>| base_rows_ok(*self, base) && rows@ == sorted_rows(base, self.sort_col, self.sort_phase),
    {
        let mut base: Vec<ScanEntry> = Vec::new();
        if self.view_mode == ViewMode::Home && !self.scanning {
            let mut i: usize = 0;
            while i < self.drives.len()
                invariant
                    i <= self.drives@.len(),
                    base@.len() == i,
                    forall|j: int| 0 <= j < i ==> drive_entry_ok(#[trigger] base@[j], self.drives@[j]),
                decreases self.drives@.len() - i,
            {
                base.push(self.drives[i].to_entry());
                i += 1;
            }
        } else {
            let mut i: usize = 0;
            while i < self.entries.len()
                invariant
                    i <= self.entries@.len(),
                    base@ == self.entries@.take(i as int),
                decreases self.entries@.len() - i,
            {
                base.push(clone_entry(&self.entries[i]));
                assert(base@ == self.entries@.take(i + 1));
                i += 1;
            }
            assert(self.entries@.take(self.entries@.len() as int) == self.entries@);
        }
        assert(base_rows_ok(*self, base@));
        match (self.sort_col, self.sort_phase) {
            (Some(col), Some(ph)) => {
                let desc = ph == SortPhase::Desc;
                let mut keys: Vec<RowKey> = Vec::new();
                let mut i: usize = 0;
                while i < base.len()
                    invariant
                        i <= base@.len(),
                        keys@ == row_keys(base@, col, desc).take(i as int),
                    decreases base@.len() - i,
                {
                    keys.push(RowKey {
                        name: base[i].name.clone(),
                        size: base[i].size,
                        files: base[i].file_count,
                        share: base[i].percent,
                        col,
                        desc,
                    });
                    assert(keys@ == row_keys(base@, col, desc).take(i + 1));
                    i += 1;
                }
                assert(keys@ == row_keys(base@, col, desc));
                let order = rank(&keys);
                proof {
                    lemma_is_the_ranking(keys@, order@);
                }
                let mut rows: Vec<ScanEntry> = Vec::new();
                let mut k: usize = 0;
                while k < order.len()
                    invariant
                        k <= order@.len() == base@.len(),
                        is_ranking(row_keys(base@, col, desc), order@),
                        order@ == ranking(row_keys(base@, col, desc)),
                        rows@ == sorted_rows(base@, Some(col), Some(ph)).take(k as int),
                        desc == (ph == SortPhase::Desc),
                    decreases base@.len() - k,
                {
                    rows.push(clone_entry(&base[order[k]]));
                    assert(rows@ == sorted_rows(base@, Some(col), Some(ph)).take(k + 1));
                    k += 1;
                }
                assert(rows@ == sorted_rows(base@, Some(col), Some(ph)));
                rows
            },
            _ => base,
        }
    }

    /// The rows of the directory table for the listed rows.
    pub fn file_list_rows(&self, rows: &Vec<ScanEntry>, size_computing: bool) -> (out: Vec<FileListRow>)
        requires
            !(lists_drives(*self) || size_computing || rows@.len() <= 20) ==> sum(sizes(rows@))
                <= u64::MAX,
        ensures
            out@.map_values(|r: FileListRow| r.view()) == table_rows(*self, rows@, size_computing),
    {
        let home = self.view_mode == ViewMode::Home && !self.scanning;
        if home || size_computing || rows.len() <= 20 {
            return all_entry_rows(rows);
        }
        let compacted = compact_scan_entries(rows);
        if compacted.folded.len() == 0 {
            return all_entry_rows(rows);
        }
        let key = self.folded_key();
        let expanded = key_listed(&self.expanded_folded, &key);
        let mut out: Vec<FileListRow> = Vec::new();
        assert(out@.map_values(|r: FileListRow| r.view()) =~= Seq::<RowView>::empty());
        push_rows_with_paths(&mut out, rows, &compacted.visible);
        let label = crate::structure::folded_label(compacted.folded.len(), compacted.folded_size);
        let ghost before = out@;
        out.push(FileListRow::Folded {
            key,
            label,
            count: compacted.folded.len(),
            size: compacted.folded_size,
        });
        assert(out@.map_values(|r: FileListRow| r.view()) =~= before.map_values(|r: FileListRow| r.view()).push(
            out@.last().view(),
        ));
        if expanded {
            push_rows_with_paths(&mut out, rows, &compacted.folded);
        } else {
            assert(out@.map_values(|r: FileListRow| r.view()) =~= out@.map_values(|r: FileListRow| r.view()) + Seq::<RowView>::empty());
        }
        out
    }

    /// Opens the folded group `key` (adding its key), or closes it when open (dropping the
    /// key).
    pub fn toggle_folded(&mut self, key: &String)
        ensures
            views(final(self).expanded_folded@) == toggled(views(old(self).expanded_folded@), key@),
    {
        let ghost ov = views(self.expanded_folded@);
        if key_listed(&self.expanded_folded, key) {
            let mut kept: Vec<String> = Vec::new();
            let mut i: usize = 0;
            proof {
                reveal(Seq::filter);
                assert(ov.take(0) =~= Seq::<Seq<char>>::empty());
                assert(views(kept@) =~= Seq::<Seq<char>>::empty());
            }
            while i < self.expanded_folded.len()
                invariant
                    i <= self.expanded_folded@.len(),
                    ov == views(self.expanded_folded@),
                    views(kept@) == ov.take(i as int).filter(not_key(key@)),
                decreases self.expanded_folded@.len() - i,
            {
                let ghost before = kept@;
                proof {
                    reveal(Seq::filter);
                    assert(ov.take(i + 1).drop_last() =~= ov.take(i as int));
                    assert(ov.take(i + 1).last() == self.expanded_folded@[i as int]@);
                }
                if self.expanded_folded[i] != *key {
                    kept.push(self.expanded_folded[i].clone());
                    assert(views(kept@) =~= views(before).push(self.expanded_folded@[i as int]@));
                }
                i += 1;
            }
            assert(ov.take(ov.len() as int) =~= ov);
            self.expanded_folded = kept;
        } else {
            let ghost before = self.expanded_folded@;
            self.expanded_folded.push(key.clone());
            assert(views(self.expanded_folded@) =~= views(before).push(key@));
        }
    }
}

} // verus!
