//! How an AI answer in markdown is laid out line by line in the answer panel.
use vstd::prelude::*;
use crate::report::{clean_chars, clean_inline, is_table_row, is_table_sep, row_chars, sep_chars, trim_bars};
use crate::text::{
    chars_of, find, find_from_exec, lemma_find_in_range, lines, lines_exec, slice,
    starts_with, starts_with_exec, string_of, strip_prefixes_exec, strip_suffixes_exec, trim,
    trim_chars,
};

verus! {

/// The pieces of `s` between the characters `c` (`str::split` by one character): one
/// piece more than there are separators, the empty text giving one empty piece.
pub open spec fn pieces(s: Seq<char>, c: char) -> Seq<Seq<char>>
    decreases s.len(),
{
    match find(s, seq![c]) {
        Some(k) => {
            if 0 <= k < s.len() {
                seq![s.take(k)] + pieces(s.skip(k + 1), c)
            } else {
                seq![s]
            }
        },
        None => seq![s],
    }
}

/// The cells of a table row: its bars stripped at both ends, cut at the inner bars, each
/// cell trimmed and cleaned.
pub open spec fn row_cells(line: Seq<char>) -> Seq<Seq<char>> {
    pieces(trim_bars(line), '|').map_values(|cell: Seq<char>| clean_inline(trim(cell)))
}

/// How one line of an answer is shown.
pub enum MarkdownLine {
    /// A blank line: some space.
    Gap,
    /// A line inside a fenced code block, as written.
    Code(String),
    /// A `###` heading.
    Minor(String),
    /// A `#` or `##` heading.
    Heading(String),
    /// A table row, cell by cell.
    Cells(Vec<String>),
    /// A `-` or `*` list item.
    Bullet(String),
    /// Any other text.
    Text(String),
}

/// A shown line as text.
pub enum LineView {
    Gap,
    Code(Seq<char>),
    Minor(Seq<char>),
    Heading(Seq<char>),
    Cells(Seq<Seq<char>>),
    Bullet(Seq<char>),
    Text(Seq<char>),
}

/// The texts of a list of strings.
pub open spec fn texts(v: Seq<String>) -> Seq<Seq<char>> {
    v.map_values(|s: String| s@)
}

impl MarkdownLine {
    pub open spec fn view(&self) -> LineView {
        match self {
            MarkdownLine::Gap => LineView::Gap,
            MarkdownLine::Code(s) => LineView::Code(s@),
            MarkdownLine::Minor(s) => LineView::Minor(s@),
            MarkdownLine::Heading(s) => LineView::Heading(s@),
            MarkdownLine::Cells(v) => LineView::Cells(texts(v@)),
            MarkdownLine::Bullet(s) => LineView::Bullet(s@),
            MarkdownLine::Text(s) => LineView::Text(s@),
        }
    }
}

/// `s` after the prefix `p`.
pub open spec fn after(s: Seq<char>, p: Seq<char>) -> Seq<char> {
    s.skip(p.len() as int)
}

/// What one line shows, given whether a code block is open, and whether a code block is
/// open after it: blank lines leave space; a fence opens or closes a block; inside a block
/// lines show as written; outside, headings, table rows (not their separators), list items
/// and plain text are shown cleaned.
pub open spec fn line_step(line: Seq<char>, in_code: bool) -> (Option<LineView>, bool) {
    let t = trim(line);
    if t.len() == 0 {
        (Some(LineView::Gap), in_code)
    } else if starts_with(t, "```"@) {
        (None, !in_code)
    } else if in_code {
        (Some(LineView::Code(line)), in_code)
    } else if starts_with(t, "### "@) {
        (Some(LineView::Minor(clean_inline(after(t, "### "@)))), in_code)
    } else if starts_with(t, "## "@) {
        (Some(LineView::Heading(clean_inline(after(t, "## "@)))), in_code)
    } else if starts_with(t, "# "@) {
        (Some(LineView::Heading(clean_inline(after(t, "# "@)))), in_code)
    } else if is_table_sep(t) {
        (None, in_code)
    } else if is_table_row(t) {
        (Some(LineView::Cells(row_cells(t))), in_code)
    } else if starts_with(t, "- "@) {
        (Some(LineView::Bullet(clean_inline(after(t, "- "@)))), in_code)
    } else if starts_with(t, "* "@) {
        (Some(LineView::Bullet(clean_inline(after(t, "* "@)))), in_code)
    } else {
        (Some(LineView::Text(clean_inline(t))), in_code)
    }
}

/// The shown lines of a list of lines, given whether a code block is open before them.
pub open spec fn shown_from(ls: Seq<Seq<char>>, in_code: bool) -> Seq<LineView>
    decreases ls.len(),
{
    if ls.len() == 0 {
        Seq::empty()
    } else {
        let (e, next) = line_step(ls[0], in_code);
        (match e {
            Some(v) => seq![v],
            None => Seq::empty(),
        }) + shown_from(ls.drop_first(), next)
    }
}

/// The shown lines of an answer.
pub open spec fn shown_lines(md: Seq<char>) -> Seq<LineView> {
    shown_from(lines(md), false)
}

/// The pieces of `s` between the characters `c`.
pub fn split_pieces(s: &Vec<char>, c: char) -> (out: Vec<Vec<char>>)
    ensures
        out@.len() == pieces(s@, c).len(),
        forall|i: int| 0 <= i < out@.len() ==> #[trigger] out@[i]@ == pieces(s@, c)[i],
{
    let sep: Vec<char> = vec![c];
    assert(sep@ =~= seq![c]);
    let mut out: Vec<Vec<char>> = Vec::new();
    let mut rest: Vec<char> = slice(s, 0, s.len());
    assert(rest@ == s@);
    let ghost mut done: Seq<Seq<char>> = Seq::empty();
    loop
        invariant
            sep@ == seq![c],
            out@.len() == done.len(),
            forall|i: int| 0 <= i < out@.len() ==> #[trigger] out@[i]@ == done[i],
            done + pieces(rest@, c) == pieces(s@, c),
        decreases rest@.len(),
    {
        match find_from_exec(&rest, &sep, 0) {
            None => {
                assert(pieces(rest@, c) == seq![rest@]);
                proof {
                    done = done.push(rest@);
                }
                out.push(rest);
                assert(done == pieces(s@, c));
                return out;
            },
            Some(k) => {
                proof {
                    lemma_find_in_range(rest@, sep@, 0);
                }
                assert(k + 1 <= rest@.len());
                assert(rest.len() == rest@.len());
                let piece = slice(&rest, 0, k);
                let next = slice(&rest, k + 1, rest.len());
                assert(piece@ == rest@.take(k as int));
                assert(next@ == rest@.skip(k + 1));
                assert(pieces(rest@, c) == seq![piece@] + pieces(next@, c));
                proof {
                    done = done.push(piece@);
                }
                out.push(piece);
                rest = next;
            },
        }
    }
}

/// The cells of a table row.
pub fn table_cells(t: &Vec<char>) -> (cells: Vec<String>)
    ensures
        texts(cells@) == row_cells(t@),
{
    let bar: Vec<char> = vec!['|'];
    assert(bar@ =~= seq!['|']);
    let inner = strip_suffixes_exec(&strip_prefixes_exec(t, &bar), &bar);
    let parts = split_pieces(&inner, '|');
    let ghost ps = pieces(trim_bars(t@), '|');
    let mut cells: Vec<String> = Vec::new();
    let mut i: usize = 0;
    while i < parts.len()
        invariant
            i <= parts@.len() == ps.len(),
            ps == pieces(trim_bars(t@), '|'),
            forall|j: int| 0 <= j < parts@.len() ==> #[trigger] parts@[j]@ == ps[j],
            cells@.len() == i,
            forall|j: int| 0 <= j < i ==> #[trigger] cells@[j]@ == clean_inline(trim(ps[j])),
        decreases parts@.len() - i,
    {
        let cell = string_of(&clean_chars(&trim_chars(&parts[i])));
        cells.push(cell);
        i += 1;
    }
    assert(texts(cells@) =~= row_cells(t@));
    cells
}

/// `s` after the prefix `p`, when it starts with it.
fn after_exec(s: &Vec<char>, p: &str) -> (r: Option<String>)
    ensures
        r matches Some(x) ==> starts_with(s@, p@) && x@ == clean_inline(after(s@, p@)),
        r is None ==> !starts_with(s@, p@),
{
    let pv = chars_of(p);
    if starts_with_exec(s, &pv) {
        let rest = slice(s, pv.len(), s.len());
        assert(rest@ == after(s@, p@));
        Some(string_of(&clean_chars(&rest)))
    } else {
        None
    }
}

/// What one line shows, and whether a code block is open after it.
pub fn step_line(line: &Vec<char>, in_code: bool) -> (r: (Option<MarkdownLine>, bool))
    ensures
        r.1 == line_step(line@, in_code).1,
        match r.0 {
            Some(m) => line_step(line@, in_code).0 == Some(m.view()),
            None => line_step(line@, in_code).0 is None,
        },
{
    let t = trim_chars(line);
    if t.len() == 0 {
        return (Some(MarkdownLine::Gap), in_code);
    }
    let fence = chars_of("```");
    if starts_with_exec(&t, &fence) {
        return (None, !in_code);
    }
    if in_code {
        return (Some(MarkdownLine::Code(string_of(line))), in_code);
    }
    if let Some(x) = after_exec(&t, "### ") {
        return (Some(MarkdownLine::Minor(x)), in_code);
    }
    if let Some(x) = after_exec(&t, "## ") {
        return (Some(MarkdownLine::Heading(x)), in_code);
    }
    if let Some(x) = after_exec(&t, "# ") {
        return (Some(MarkdownLine::Heading(x)), in_code);
    }
    if sep_chars(&t) {
        return (None, in_code);
    }
    if row_chars(&t) {
        return (Some(MarkdownLine::Cells(table_cells(&t))), in_code);
    }
    if let Some(x) = after_exec(&t, "- ") {
        return (Some(MarkdownLine::Bullet(x)), in_code);
    }
    if let Some(x) = after_exec(&t, "* ") {
        return (Some(MarkdownLine::Bullet(x)), in_code);
    }
    (Some(MarkdownLine::Text(string_of(&clean_chars(&t)))), in_code)
}

/// The views of a list of shown lines.
pub open spec fn line_views(v: Seq<MarkdownLine>) -> Seq<LineView> {
    v.map_values(|m: MarkdownLine| m.view())
}

/// How an answer is laid out, line by line.
pub fn markdown_lines(markdown: &str) -> (out: Vec<MarkdownLine>)
    ensures
        line_views(out@) == shown_lines(markdown@),
{
    let md = chars_of(markdown);
    let ls = lines_exec(&md);
    let ghost all = lines(markdown@);
    let mut out: Vec<MarkdownLine> = Vec::new();
    let mut in_code = false;
    let mut i: usize = 0;
    assert(all.skip(0) == all);
    while i < ls.len()
        invariant
            i <= ls@.len() == all.len(),
            all == lines(markdown@),
            forall|j: int| 0 <= j < ls@.len() ==> #[trigger] ls@[j]@ == all[j],
            line_views(out@) + shown_from(all.skip(i as int), in_code) == shown_from(all, false),
        decreases ls@.len() - i,
    {
        let ghost before = out@;
        let ghost rest = all.skip(i as int);
        assert(rest[0] == all[i as int]);
        assert(rest.drop_first() == all.skip(i + 1));
        let (e, next) = step_line(&ls[i], in_code);
        match e {
            Some(m) => {
                out.push(m);
                assert(line_views(out@) == line_views(before).push(m.view()));
            },
            None => {},
        }
        in_code = next;
        i += 1;
    }
    assert(all.skip(all.len() as int) =~= Seq::<Seq<char>>::empty());
    out
}

} // verus!
