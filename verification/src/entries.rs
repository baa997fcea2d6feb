//! Scan entries, drives and the labels drawn from them.
use vstd::prelude::*;
use crate::format::{format_size, push_ratio, ratio_text, size_text};
use crate::text::{chars_of, push_chars, push_str, strip_suffixes, strip_suffixes_exec};

verus! {

/// A share of a whole; as a percentage it is `100 * part / whole`, and 0 when `whole == 0`.
#[derive(Clone, Copy, Debug, PartialEq, Eq)]
pub struct Share {
    pub part: u64,
    pub whole: u64,
}

/// One file or folder with its aggregated sizes and counts.
#[derive(Clone, Debug)]
pub struct ScanEntry {
    pub name: String,
    pub path: String,
    pub is_dir: bool,
    pub size: u64,
    pub allocated: u64,
    pub file_count: u64,
    pub folder_count: u64,
    pub percent: Share,
}

/// A scanned item together with the scanned items inside it.
#[derive(Debug)]
pub struct ScanNode {
    pub entry: ScanEntry,
    pub children: Vec<ScanNode>,
}

/// A local drive with its capacity.
#[derive(Clone, Debug)]
pub struct DriveInfo {
    pub letter: String,
    pub path: String,
    pub total_bytes: u64,
    pub free_bytes: u64,
}

/// An exact copy of an entry.
pub fn clone_entry(e: &ScanEntry) -> (r: ScanEntry)
    ensures
        r == *e,
{
    ScanEntry {
        name: e.name.clone(),
        path: e.path.clone(),
        is_dir: e.is_dir,
        size: e.size,
        allocated: e.allocated,
        file_count: e.file_count,
        folder_count: e.folder_count,
        percent: e.percent,
    }
}

/// A share written as a percentage with `places` decimals, without the `%` sign.
pub open spec fn percent_text(s: Share, places: nat) -> Seq<char> {
    ratio_text(100 * s.part as nat, s.whole as nat, places)
}

/// Appends a share as a percentage with `places` decimals.
pub fn push_percent(out: &mut String, s: Share, places: u32)
    requires
        places <= 8,
    ensures
        final(out)@ == old(out)@ + percent_text(s, places as nat),
{
    push_ratio(out, 100 * (s.part as u128), s.whole as u128, places);
}

/// The used bytes of a drive (never below 0).
pub open spec fn used_of(total: u64, free: u64) -> u64 {
    if free <= total {
        (total - free) as u64
    } else {
        0
    }
}

/// A drive's used space and its free space make up its capacity; a drive reporting more
/// free space than capacity counts nothing as used.
pub proof fn lemma_used_of(total: u64, free: u64)
    ensures
        free <= total ==> used_of(total, free) + free == total,
        free > total ==> used_of(total, free) == 0,
        used_of(total, free) <= total,
{
}

/// `本地磁盘 ({letter})`.
pub open spec fn drive_label(letter: Seq<char>) -> Seq<char> {
    "本地磁盘 ("@ + letter + ")"@
}

/// The capacity line of a drive: capacity, free space and the used percentage.
pub open spec fn drive_capacity(d: DriveInfo) -> Seq<char> {
    "容量 "@ + size_text(d.total_bytes as nat) + "  可用 "@ + size_text(d.free_bytes as nat) + "  ("@
        + percent_text(Share { part: used_of(d.total_bytes, d.free_bytes), whole: d.total_bytes }, 0)
        + "% 已用)"@
}

/// The one-line summary of a drive: its label, then its capacity line.
pub open spec fn drive_summary(d: DriveInfo) -> Seq<char> {
    drive_label(d.letter@) + "  "@ + drive_capacity(d)
}

impl DriveInfo {
    /// Total minus free, never below 0.
    pub fn used_bytes(&self) -> (u: u64)
        ensures
            u == used_of(self.total_bytes, self.free_bytes),
    {
        if self.free_bytes <= self.total_bytes {
            self.total_bytes - self.free_bytes
        } else {
            0
        }
    }

    /// The used part of the drive.
    pub fn used_percent(&self) -> (s: Share)
        ensures
            s == (Share { part: used_of(self.total_bytes, self.free_bytes), whole: self.total_bytes }),
    {
        Share { part: self.used_bytes(), whole: self.total_bytes }
    }

    /// `本地磁盘 ({letter})`.
    pub fn label(&self) -> (s: String)
        ensures
            s@ == drive_label(self.letter@),
    {
        let mut s = String::new();
        push_str(&mut s, "本地磁盘 (");
        push_str(&mut s, self.letter.as_str());
        push_str(&mut s, ")");
        s
    }

    /// The drive as a list entry: used bytes as size, capacity as allocated space.
    pub fn to_entry(&self) -> (e: ScanEntry)
        ensures
            e.name@ == drive_label(self.letter@),
            e.path == self.path,
            e.is_dir,
            e.size == used_of(self.total_bytes, self.free_bytes),
            e.allocated == self.total_bytes,
            e.file_count == 0,
            e.folder_count == 0,
            e.percent == (Share { part: used_of(self.total_bytes, self.free_bytes), whole: self.total_bytes }),
    {
        ScanEntry {
            name: self.label(),
            path: self.path.clone(),
            is_dir: true,
            size: self.used_bytes(),
            allocated: self.total_bytes,
            file_count: 0,
            folder_count: 0,
            percent: self.used_percent(),
        }
    }
}

/// The summary shown when hovering a drive card.
pub fn drive_summary_label(drive: &DriveInfo) -> (s: String)
    ensures
        s@ == drive_summary(*drive),
{
    let mut s = drive.label();
    push_str(&mut s, "  ");
    let c = drive_capacity_line(drive);
    push_str(&mut s, c.as_str());
    s
}

/// The capacity line shown on a drive card.
pub fn drive_capacity_line(drive: &DriveInfo) -> (s: String)
    ensures
        s@ == drive_capacity(*drive),
{
    let mut s = String::new();
    push_str(&mut s, "容量 ");
    let t = format_size(drive.total_bytes);
    push_str(&mut s, t.as_str());
    push_str(&mut s, "  可用 ");
    let f = format_size(drive.free_bytes);
    push_str(&mut s, f.as_str());
    push_str(&mut s, "  (");
    push_percent(&mut s, drive.used_percent(), 0);
    push_str(&mut s, "% 已用)");
    s
}

/// The capacity cell of a drive row: `used/total` when the capacity is larger than the use.
pub open spec fn capacity_cell(size: u64, allocated: u64) -> Seq<char> {
    if allocated > size {
        size_text(size as nat) + "/"@ + size_text(allocated as nat)
    } else {
        size_text(size as nat)
    }
}

/// The capacity cell of a drive row.
pub fn drive_capacity_cell(entry: &ScanEntry) -> (s: String)
    ensures
        s@ == capacity_cell(entry.size, entry.allocated),
{
    let mut s = format_size(entry.size);
    if entry.allocated > entry.size {
        push_str(&mut s, "/");
        let a = format_size(entry.allocated);
        push_str(&mut s, a.as_str());
    }
    s
}

/// The root folder of a drive letter such as `C` or `C:`.
pub open spec fn drive_root_of(letter: Seq<char>) -> Seq<char> {
    strip_suffixes(letter, seq![':']) + seq![':', '\\']
}

/// The root path of a drive, from its letter with or without the colon.
pub fn drive_icon_path(letter: &str) -> (p: String)
    ensures
        p@ == drive_root_of(letter@),
{
    let colon: Vec<char> = vec![':'];
    assert(colon@ =~= seq![':']);
    let l = strip_suffixes_exec(&chars_of(letter), &colon);
    let mut p = String::new();
    push_chars(&mut p, &l);
    push_str(&mut p, ":\\");
    proof {
        reveal_strlit(":\\");
    }
    assert(p@ == drive_root_of(letter@));
    p
}

/// The root of the drive a path lies on: `X:\` when the path starts with an ASCII
/// character and a colon, `C:\` otherwise.
pub open spec fn path_drive_root(path: Seq<char>) -> Seq<char> {
    if path.len() >= 2 && (path[0] as u32) < 128 && path[1] == ':' {
        seq![path[0], ':', '\\']
    } else {
        seq!['C', ':', '\\']
    }
}

/// The root of the drive a path lies on.
pub fn drive_root(path: &str) -> (r: String)
    ensures
        r@ == path_drive_root(path@),
{
    let cs = chars_of(path);
    let mut r = String::new();
    if cs.len() >= 2 && (cs[0] as u32) < 128 && cs[1] == ':' {
        crate::text::push_char(&mut r, cs[0]);
    } else {
        crate::text::push_char(&mut r, 'C');
    }
    crate::text::push_char(&mut r, ':');
    crate::text::push_char(&mut r, '\\');
    r
}

/// The icon-cache key of a path: the path itself, whatever its kind.
pub fn cache_key(path: &str, _is_dir: bool) -> (k: String)
    ensures
        k@ == path@,
{
    let mut k = String::new();
    push_str(&mut k, path);
    k
}

} // verus!
