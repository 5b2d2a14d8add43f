//! Copy selected table cells independently of grid padding, wrapping, and record labels.
//!
//! Each visual fragment refers to an original cell line. Only selected fragments are
//! serialized; repeated record labels and whitespace removed by wrapping are reconciled
//! by their shared source identity. Unselected cells never supply hidden text.
//!
//! Positions are character indices into the texts they name.

use vstd::prelude::*;
use crate::table_laws::keys_sorted;
use std::collections::BTreeMap;
use crate::text::{Line, SpanView, all_white, blank_between, concat, join, line_chars, line_text, push_range, same_chars, string_of};

verus! {

/// Copies a character vector.
pub fn copy_chars(v: &Vec<char>) -> (r: Vec<char>)
    ensures
        r@ == v@,
{
    let mut r: Vec<char> = Vec::new();
    push_range(&mut r, v, 0, v.len());
    assert(v@.subrange(0, v.len() as int) == v@);
    r
}

// ---------------------------------------------------------------------------------------
// Inline serialisation of one cell line
// ---------------------------------------------------------------------------------------

/// How the visible text of one cell line is written back as Markdown: wrapped in an
/// inline `marker` (such as `**` or `` ` ``), literally when it is code, and with its
/// pipes escaped when it stands inside a table.
#[derive(Debug)]
pub struct CellCopy {
    pub marker: Vec<char>,
    pub code: bool,
    pub table_cell: bool,
}

pub struct CellCopyView {
    pub marker: Seq<char>,
    pub code: bool,
    pub table_cell: bool,
}

impl View for CellCopy {
    type V = CellCopyView;

    open spec fn view(&self) -> CellCopyView {
        CellCopyView { marker: self.marker@, code: self.code, table_cell: self.table_cell }
    }
}

impl Clone for CellCopy {
    fn clone(&self) -> (r: Self)
        ensures
            r@ == self@,
    {
        CellCopy { marker: copy_chars(&self.marker), code: self.code, table_cell: self.table_cell }
    }
}

/// The characters that Markdown gives a meaning to inside a line, and that a plain copy
/// escapes with a backslash.
pub open spec fn is_markdown_punct(c: char) -> bool {
    ||| c == '\\'
    ||| c == '`'
    ||| c == '*'
    ||| c == '_'
    ||| c == '['
    ||| c == ']'
    ||| c == '<'
    ||| c == '>'
    ||| c == '|'
    ||| c == '~'
}

/// `s` with a backslash before each Markdown punctuation character.
pub open spec fn escape_spec(s: Seq<char>) -> Seq<char>
    decreases s.len(),
{
    if s.len() == 0 {
        Seq::empty()
    } else {
        let c = s.last();
        escape_spec(s.drop_last()) + if is_markdown_punct(c) {
            seq!['\\', c]
        } else {
            seq![c]
        }
    }
}

/// `s` with a backslash before each pipe.
pub open spec fn escape_pipes_spec(s: Seq<char>) -> Seq<char>
    decreases s.len(),
{
    if s.len() == 0 {
        Seq::empty()
    } else {
        let c = s.last();
        escape_pipes_spec(s.drop_last()) + if c == '|' {
            seq!['\\', c]
        } else {
            seq![c]
        }
    }
}

/// The Markdown of `text[start..end]` under the inline copy `copy`.
pub open spec fn cell_copy_render(copy: CellCopyView, text: Seq<char>, start: int, end: int) -> Seq<
    char,
> {
    if start >= end {
        Seq::empty()
    } else {
        let body = text.subrange(start, end);
        let inner = if copy.code {
            if copy.table_cell {
                escape_pipes_spec(body)
            } else {
                body
            }
        } else {
            escape_spec(body)
        };
        copy.marker + inner + copy.marker
    }
}

/// Appends `text[start..end]` to `out` with Markdown punctuation escaped.
pub fn push_escaped(out: &mut Vec<char>, text: &Vec<char>, start: usize, end: usize)
    requires
        start <= end <= text.len(),
    ensures
        final(out)@ == old(out)@ + escape_spec(text@.subrange(start as int, end as int)),
{
    let mut i = start;
    while i < end
        invariant
            start <= i <= end <= text.len(),
            out@ == old(out)@ + escape_spec(text@.subrange(start as int, i as int)),
        decreases end - i,
    {
        let c = text[i];
        if c == '\\' || c == '`' || c == '*' || c == '_' || c == '[' || c == ']' || c == '<' || c
            == '>' || c == '|' || c == '~' {
            out.push('\\');
        }
        out.push(c);
        i += 1;
        assert(text@.subrange(start as int, i as int).drop_last() == text@.subrange(
            start as int,
            i - 1,
        ));
    }
}

/// Appends `text[start..end]` to `out` with each pipe escaped.
pub fn push_pipes_escaped(out: &mut Vec<char>, text: &Vec<char>, start: usize, end: usize)
    requires
        start <= end <= text.len(),
    ensures
        final(out)@ == old(out)@ + escape_pipes_spec(text@.subrange(start as int, end as int)),
{
    let mut i = start;
    while i < end
        invariant
            start <= i <= end <= text.len(),
            out@ == old(out)@ + escape_pipes_spec(text@.subrange(start as int, i as int)),
        decreases end - i,
    {
        let c = text[i];
        if c == '|' {
            out.push('\\');
        }
        out.push(c);
        i += 1;
        assert(text@.subrange(start as int, i as int).drop_last() == text@.subrange(
            start as int,
            i - 1,
        ));
    }
}

/// The plain text `text[start..end]` with Markdown punctuation escaped.
pub fn escape(text: &Vec<char>, start: usize, end: usize) -> (r: Vec<char>)
    requires
        start <= end <= text.len(),
    ensures
        r@ == escape_spec(text@.subrange(start as int, end as int)),
{
    let mut r: Vec<char> = Vec::new();
    push_escaped(&mut r, text, start, end);
    r
}

impl CellCopy {
    /// Writes `text[start..end]` back as Markdown.
    pub fn render(&self, text: &Vec<char>, start: usize, end: usize) -> (r: Vec<char>)
        requires
            start <= end <= text.len(),
        ensures
            r@ == cell_copy_render(self@, text@, start as int, end as int),
    {
        let mut r: Vec<char> = Vec::new();
        if start >= end {
            return r;
        }
        push_range(&mut r, &self.marker, 0, self.marker.len());
        assert(self.marker@.subrange(0, self.marker.len() as int) == self.marker@);
        if self.code {
            if self.table_cell {
                push_pipes_escaped(&mut r, text, start, end);
            } else {
                push_range(&mut r, text, start, end);
            }
        } else {
            push_escaped(&mut r, text, start, end);
        }
        push_range(&mut r, &self.marker, 0, self.marker.len());
        r
    }
}


// ---------------------------------------------------------------------------------------
// Sources, fragments and table lines
// ---------------------------------------------------------------------------------------

/// One original line of a table cell: `id` names the line within its cell, `text` is the
/// line's visible text, `start..end` the part of it this value stands for.
#[derive(Debug)]
pub struct CellSource {
    pub id: usize,
    pub text: Vec<char>,
    pub start: usize,
    pub end: usize,
    pub copy: Option<CellCopy>,
}

pub struct CellSourceView {
    pub id: usize,
    pub text: Seq<char>,
    pub start: usize,
    pub end: usize,
    pub copy: Option<CellCopyView>,
}

pub open spec fn opt_copy_view(c: Option<CellCopy>) -> Option<CellCopyView> {
    match c {
        Some(c) => Some(c@),
        None => None,
    }
}

impl View for CellSource {
    type V = CellSourceView;

    open spec fn view(&self) -> CellSourceView {
        CellSourceView {
            id: self.id,
            text: self.text@,
            start: self.start,
            end: self.end,
            copy: opt_copy_view(self.copy),
        }
    }
}

impl Clone for CellSource {
    fn clone(&self) -> (r: Self)
        ensures
            r@ == self@,
    {
        let copy = match &self.copy {
            Some(c) => Some(c.clone()),
            None => None,
        };
        CellSource {
            id: self.id,
            text: copy_chars(&self.text),
            start: self.start,
            end: self.end,
            copy,
        }
    }
}

/// The range of a cell source lies within its text.
pub open spec fn source_wf(s: CellSourceView) -> bool {
    s.start <= s.end <= s.text.len()
}

/// A displayed piece of one cell: `output_start..output_end` in the composed row shows
/// `source.text[source.start..source.end]` of cell (`row`, `column`).
#[derive(Debug)]
pub struct Fragment {
    pub output_start: usize,
    pub output_end: usize,
    pub row: usize,
    pub column: usize,
    pub source: CellSource,
}

pub struct FragmentView {
    pub output_start: usize,
    pub output_end: usize,
    pub row: usize,
    pub column: usize,
    pub source: CellSourceView,
}

impl View for Fragment {
    type V = FragmentView;

    open spec fn view(&self) -> FragmentView {
        FragmentView {
            output_start: self.output_start,
            output_end: self.output_end,
            row: self.row,
            column: self.column,
            source: self.source@,
        }
    }
}

impl Clone for Fragment {
    fn clone(&self) -> (r: Self)
        ensures
            r@ == self@,
    {
        Fragment {
            output_start: self.output_start,
            output_end: self.output_end,
            row: self.row,
            column: self.column,
            source: self.source.clone(),
        }
    }
}

/// A fragment shows as many characters as its cell range holds, and that range lies in
/// its text.
pub open spec fn fragment_wf(f: FragmentView) -> bool {
    &&& f.output_start <= f.output_end
    &&& f.output_end - f.output_start == f.source.end - f.source.start
    &&& source_wf(f.source)
}

pub open spec fn fragments_wf(fs: Seq<FragmentView>) -> bool {
    forall|i: int| 0 <= i < fs.len() ==> fragment_wf(#[trigger] fs[i])
}

/// The table cells that one displayed line shows: the table's column alignments
/// (`---`, `:---:`, ...) and the cell fragments of the line.
#[derive(Debug)]
pub struct TableLine {
    pub table: Vec<Vec<char>>,
    pub fragments: Vec<Fragment>,
}

pub struct TableLineView {
    pub table: Seq<Seq<char>>,
    pub fragments: Seq<FragmentView>,
}

pub open spec fn texts_view(t: Seq<Vec<char>>) -> Seq<Seq<char>> {
    t.map_values(|a: Vec<char>| a@)
}

pub open spec fn fragments_view(fs: Seq<Fragment>) -> Seq<FragmentView> {
    fs.map_values(|f: Fragment| f@)
}

impl View for TableLine {
    type V = TableLineView;

    open spec fn view(&self) -> TableLineView {
        TableLineView {
            table: texts_view(self.table@),
            fragments: fragments_view(self.fragments@),
        }
    }
}

/// Copies the column alignments of a table.
pub fn copy_alignments(t: &Vec<Vec<char>>) -> (r: Vec<Vec<char>>)
    ensures
        texts_view(r@) == texts_view(t@),
{
    let mut r: Vec<Vec<char>> = Vec::new();
    for i in 0..t.len()
        invariant
            r.len() == i,
            forall|k: int| 0 <= k < i ==> (#[trigger] r@[k])@ == t@[k]@,
    {
        r.push(copy_chars(&t[i]));
    }
    assert(texts_view(r@) =~= texts_view(t@));
    r
}

impl Clone for TableLine {
    fn clone(&self) -> (r: Self)
        ensures
            r@ == self@,
    {
        let mut fragments: Vec<Fragment> = Vec::new();
        for i in 0..self.fragments.len()
            invariant
                fragments.len() == i,
                forall|k: int| 0 <= k < i ==> (#[trigger] fragments@[k])@ == self.fragments@[k]@,
        {
            fragments.push(self.fragments[i].clone());
        }
        assert(fragments_view(fragments@) =~= fragments_view(self.fragments@));
        TableLine { table: copy_alignments(&self.table), fragments }
    }
}

impl TableLine {
    /// A table line of `table` that shows no cell.
    pub fn empty(table: &Vec<Vec<char>>) -> (r: TableLine)
        ensures
            r@.table == texts_view(table@),
            r@.fragments == Seq::<FragmentView>::empty(),
    {
        let r = TableLine { table: copy_alignments(table), fragments: Vec::new() };
        assert(r@.fragments =~= Seq::<FragmentView>::empty());
        r
    }
}

/// How a displayed line is copied: as part of a table when `table` is present.
#[derive(Debug)]
pub struct CopyLine {
    pub table: Option<TableLine>,
}

pub struct CopyLineView {
    pub table: Option<TableLineView>,
}

pub open spec fn opt_table_view(t: Option<TableLine>) -> Option<TableLineView> {
    match t {
        Some(t) => Some(t@),
        None => None,
    }
}

impl View for CopyLine {
    type V = CopyLineView;

    open spec fn view(&self) -> CopyLineView {
        CopyLineView { table: opt_table_view(self.table) }
    }
}

/// The logical source of a displayed line: its text, the range of it the line shows,
/// the display columns that precede it, and how it is copied.
#[derive(Debug)]
pub struct LogicalLineSource {
    pub text: Vec<char>,
    pub start: usize,
    pub end: usize,
    pub prefix_len: usize,
    pub copy: Option<CopyLine>,
}

pub struct LogicalLineSourceView {
    pub text: Seq<char>,
    pub start: usize,
    pub end: usize,
    pub prefix_len: usize,
    pub copy: Option<CopyLineView>,
}

pub open spec fn opt_copy_line_view(c: Option<CopyLine>) -> Option<CopyLineView> {
    match c {
        Some(c) => Some(c@),
        None => None,
    }
}

impl View for LogicalLineSource {
    type V = LogicalLineSourceView;

    open spec fn view(&self) -> LogicalLineSourceView {
        LogicalLineSourceView {
            text: self.text@,
            start: self.start,
            end: self.end,
            prefix_len: self.prefix_len,
            copy: opt_copy_line_view(self.copy),
        }
    }
}

/// The table that a line source is copied as part of, if any.
pub open spec fn source_table(s: LogicalLineSourceView) -> Option<TableLineView> {
    match s.copy {
        Some(c) => c.table,
        None => None,
    }
}

/// A rendered line together with the logical source it was rendered from.
#[derive(Debug)]
pub struct HyperlinkLine {
    pub line: Line,
    pub source: Option<LogicalLineSource>,
}

pub struct HyperlinkLineView {
    pub line: Seq<SpanView>,
    pub source: Option<LogicalLineSourceView>,
}

pub open spec fn opt_source_view(s: Option<LogicalLineSource>) -> Option<LogicalLineSourceView> {
    match s {
        Some(s) => Some(s@),
        None => None,
    }
}

impl View for HyperlinkLine {
    type V = HyperlinkLineView;

    open spec fn view(&self) -> HyperlinkLineView {
        HyperlinkLineView { line: self.line@, source: opt_source_view(self.source) }
    }
}

/// The source that a whole displayed line stands for: all of its visible text.
pub open spec fn line_source_spec(line: Seq<SpanView>, copy: Option<CopyLineView>) -> LogicalLineSourceView {
    LogicalLineSourceView {
        text: line_text(line),
        start: 0,
        end: line_text(line).len() as usize,
        prefix_len: 0,
        copy,
    }
}

/// What `attach` makes of a line: unchanged without a table, else copied as part of it.
pub open spec fn attach_spec(line: HyperlinkLineView, table: Option<TableLineView>) -> HyperlinkLineView {
    match table {
        None => line,
        Some(t) => HyperlinkLineView {
            line: line.line,
            source: Some(line_source_spec(line.line, Some(CopyLineView { table: Some(t) }))),
        },
    }
}

/// Marks `line` as showing the cells of `table`, when there is one.
pub fn attach(line: &mut HyperlinkLine, table: Option<TableLine>)
    ensures
        final(line)@ == attach_spec(old(line)@, opt_table_view(table)),
{
    if let Some(table) = table {
        let text = line_chars(&line.line);
        let end = text.len();
        line.source = Some(
            LogicalLineSource {
                text,
                start: 0,
                end,
                prefix_len: 0,
                copy: Some(CopyLine { table: Some(table) }),
            },
        );
    }
}

/// The table line that `annotate_cell` gives the `index`-th line of a cell.
pub open spec fn cell_table_spec(
    line: Seq<SpanView>,
    copy: CellCopyView,
    table: Seq<Seq<char>>,
    row: usize,
    column: usize,
    index: usize,
) -> TableLineView {
    let text = line_text(line);
    TableLineView {
        table,
        fragments: seq![
            FragmentView {
                output_start: 0,
                output_end: text.len() as usize,
                row,
                column,
                source: CellSourceView {
                    id: index,
                    text,
                    start: 0,
                    end: text.len() as usize,
                    copy: Some(copy),
                },
            },
        ],
    }
}

/// Marks each rendered line of cell (`row`, `column`) as showing that cell, with the
/// inline copy of the matching cell line; lines beyond the copies stay as they are.
pub fn annotate_cell(
    lines: &mut Vec<HyperlinkLine>,
    copies: Vec<CellCopy>,
    table: &Vec<Vec<char>>,
    row: usize,
    column: usize,
)
    ensures
        final(lines)@.len() == old(lines)@.len(),
        forall|i: int|
            0 <= i < old(lines)@.len() ==> (#[trigger] final(lines)@[i])@ == if i < copies@.len() {
                attach_spec(
                    old(lines)@[i]@,
                    Some(
                        cell_table_spec(
                            old(lines)@[i]@.line,
                            copies@[i]@,
                            texts_view(table@),
                            row,
                            column,
                            i as usize,
                        ),
                    ),
                )
            } else {
                old(lines)@[i]@
            },
{
    let n = if lines.len() < copies.len() {
        lines.len()
    } else {
        copies.len()
    };
    for i in 0..n
        invariant
            n <= old(lines)@.len(),
            n <= copies@.len(),
            lines@.len() == old(lines)@.len(),
            forall|k: int| i <= k < lines@.len() ==> (#[trigger] lines@[k]) == old(lines)@[k],
            forall|k: int|
                0 <= k < i ==> (#[trigger] lines@[k])@ == attach_spec(
                    old(lines)@[k]@,
                    Some(
                        cell_table_spec(
                            old(lines)@[k]@.line,
                            copies@[k]@,
                            texts_view(table@),
                            row,
                            column,
                            k as usize,
                        ),
                    ),
                ),
    {
        let text = line_chars(&lines[i].line);
        let len = text.len();
        let source = CellSource {
            id: i,
            text,
            start: 0,
            end: len,
            copy: Some(copies[i].clone()),
        };
        let mut fragments: Vec<Fragment> = Vec::new();
        fragments.push(Fragment { output_start: 0, output_end: len, row, column, source });
        let t = TableLine { table: copy_alignments(table), fragments };
        assert(t@.fragments =~= cell_table_spec(
            old(lines)@[i as int]@.line,
            copies@[i as int]@,
            texts_view(table@),
            row,
            column,
            i,
        ).fragments);
        attach(&mut lines[i], Some(t));
    }
}

/// The fragment that `append` adds for fragment `f` of a line shown from `src` at
/// `offset`: `f` cut down to what the line shows, placed in the composed row.
pub open spec fn project_fragment(src: LogicalLineSourceView, f: FragmentView, offset: usize) -> Option<
    FragmentView,
> {
    let start = if src.start >= f.output_start {
        src.start
    } else {
        f.output_start
    };
    let end = if src.end <= f.output_end {
        src.end
    } else {
        f.output_end
    };
    if start > end || (start == end && f.source.text.len() > 0) {
        None
    } else {
        Some(
            FragmentView {
                output_start: (offset + src.prefix_len + start - src.start) as usize,
                output_end: (offset + src.prefix_len + end - src.start) as usize,
                row: f.row,
                column: f.column,
                source: CellSourceView {
                    start: (f.source.start + start - f.output_start) as usize,
                    end: (f.source.start + end - f.output_start) as usize,
                    ..f.source
                },
            },
        )
    }
}

/// The fragments that `append` adds for `fs`, in order.
pub open spec fn project_fragments(src: LogicalLineSourceView, fs: Seq<FragmentView>, offset: usize) -> Seq<
    FragmentView,
>
    decreases fs.len(),
{
    if fs.len() == 0 {
        Seq::empty()
    } else {
        project_fragments(src, fs.drop_last(), offset) + match project_fragment(
            src,
            fs.last(),
            offset,
        ) {
            Some(f) => seq![f],
            None => Seq::empty(),
        }
    }
}

/// What `append` makes of `output`.
pub open spec fn append_spec(
    output: Option<TableLineView>,
    src: LogicalLineSourceView,
    offset: usize,
) -> Option<TableLineView> {
    match source_table(src) {
        None => output,
        Some(t) => {
            let base = match output {
                Some(o) => o,
                None => TableLineView { table: t.table, fragments: Seq::empty() },
            };
            Some(
                TableLineView {
                    table: base.table,
                    fragments: base.fragments + project_fragments(src, t.fragments, offset),
                },
            )
        },
    }
}

/// Project a displayed cell fragment into the coordinates of its composed row.
pub fn append(output: &mut Option<TableLine>, source: &LogicalLineSource, offset: usize)
    requires
        match source_table(source@) {
            Some(t) => fragments_wf(t.fragments) && offset + source.prefix_len + source.end
                <= usize::MAX,
            None => true,
        },
    ensures
        opt_table_view(*final(output)) == append_spec(opt_table_view(*old(output)), source@, offset),
{
    let table = match &source.copy {
        Some(copy) => match &copy.table {
            Some(t) => t,
            None => {
                return ;
            },
        },
        None => {
            return ;
        },
    };
    let mut out = match output.take() {
        Some(o) => o,
        None => TableLine::empty(&table.table),
    };
    let ghost base = out@;
    let ghost tv = table@;
    for i in 0..table.fragments.len()
        invariant
            tv == table@,
            fragments_wf(tv.fragments),
            offset + source.prefix_len + source.end <= usize::MAX,
            out@.table == base.table,
            out@.fragments == base.fragments + project_fragments(
                source@,
                tv.fragments.take(i as int),
                offset,
            ),
    {
        let fragment = &table.fragments[i];
        assert(tv.fragments.take(i + 1).drop_last() == tv.fragments.take(i as int));
        assert(fragment_wf(tv.fragments[i as int]));
        let start = if source.start >= fragment.output_start {
            source.start
        } else {
            fragment.output_start
        };
        let end = if source.end <= fragment.output_end {
            source.end
        } else {
            fragment.output_end
        };
        let ghost prev = out@.fragments;
        assert(project_fragments(source@, tv.fragments.take(i + 1), offset)
            == project_fragments(source@, tv.fragments.take(i as int), offset) + match project_fragment(
            source@,
            tv.fragments[i as int],
            offset,
        ) {
            Some(f) => seq![f],
            None => Seq::empty(),
        });
        if !(start > end || (start == end && fragment.source.text.len() > 0)) {
            let mut cell = fragment.source.clone();
            cell.start = fragment.source.start + (start - fragment.output_start);
            cell.end = fragment.source.start + (end - fragment.output_start);
            let f = Fragment {
                output_start: offset + source.prefix_len + (start - source.start),
                output_end: offset + source.prefix_len + (end - source.start),
                row: fragment.row,
                column: fragment.column,
                source: cell,
            };
            assert(Some(f@) == project_fragment(source@, tv.fragments[i as int], offset));
            out.fragments.push(f);
            assert(out@.fragments =~= prev.push(f@));
        } else {
            assert(project_fragment(source@, tv.fragments[i as int], offset) is None);
        }
        assert(out@.fragments =~= base.fragments + project_fragments(
            source@,
            tv.fragments.take(i + 1),
            offset,
        ));
    }
    assert(tv.fragments.take(tv.fragments.len() as int) == tv.fragments);
    *output = Some(out);
}

// ---------------------------------------------------------------------------------------
// Rendering a selection of table lines
// ---------------------------------------------------------------------------------------

/// A displayed line of a selection: its source and the selected range of its text.
#[derive(Debug)]
pub struct SelectedLine {
    pub source: LogicalLineSource,
    pub start: usize,
    pub end: usize,
}

pub struct SelectedLineView {
    pub source: LogicalLineSourceView,
    pub start: usize,
    pub end: usize,
}

impl View for SelectedLine {
    type V = SelectedLineView;

    open spec fn view(&self) -> SelectedLineView {
        SelectedLineView { source: self.source@, start: self.start, end: self.end }
    }
}

pub open spec fn selected_view(lines: Seq<SelectedLine>) -> Seq<SelectedLineView> {
    lines.map_values(|l: SelectedLine| l@)
}

/// The selected range lies within the line's text, and the fragments of its table are
/// well formed.
pub open spec fn selected_wf(l: SelectedLineView) -> bool {
    &&& l.start <= l.end <= l.source.text.len()
    &&& match source_table(l.source) {
        Some(t) => fragments_wf(t.fragments),
        None => true,
    }
}

pub open spec fn min_u(a: usize, b: usize) -> usize {
    if a <= b {
        a
    } else {
        b
    }
}

pub open spec fn max_u(a: usize, b: usize) -> usize {
    if a >= b {
        a
    } else {
        b
    }
}

/// A selected blank row: the line shows nothing and both it and the cell line are white
/// space. Wrapping may have dropped all of such a row's display padding.
pub open spec fn blank_row(l: SelectedLineView, f: FragmentView) -> bool {
    &&& l.source.start >= l.source.end
    &&& all_white(l.source.text)
    &&& all_white(f.source.text)
}

/// The part of cell fragment `f` that line `l` selects, as a range of its cell line;
/// `None` when the selection leaves the fragment out.
pub open spec fn clip_selected(l: SelectedLineView, f: FragmentView) -> Option<CellSourceView> {
    let blank = blank_row(l, f);
    let start = max_u(l.start, f.output_start);
    let end = min_u(l.end, f.output_end);
    if !blank && (start > end || (start == end && f.source.text.len() > 0)) {
        None
    } else if blank {
        Some(f.source)
    } else {
        Some(
            CellSourceView {
                start: (f.source.start + (start - f.output_start)) as usize,
                end: (f.source.start + (end - f.output_start)) as usize,
                ..f.source
            },
        )
    }
}

/// Two parts of one cell line that overlap, touch, or are separated by white space only.
pub open spec fn parts_match(prev: CellSourceView, p: CellSourceView) -> bool {
    &&& prev.id == p.id
    &&& prev.text == p.text
    &&& ((prev.start <= p.end && p.start <= prev.end) || all_white(
        prev.text.subrange(min_u(prev.end, p.end) as int, max_u(prev.start, p.start) as int),
    ))
}

/// The first index from `i` on of a part that matches `p`, or -1.
pub open spec fn first_match(parts: Seq<CellSourceView>, p: CellSourceView, i: int) -> int
    decreases parts.len() - i,
{
    if i < 0 || i >= parts.len() {
        -1
    } else if parts_match(parts[i], p) {
        i
    } else {
        first_match(parts, p, i + 1)
    }
}

/// `p` widened to cover `prev` as well.
pub open spec fn widen(prev: CellSourceView, p: CellSourceView) -> CellSourceView {
    CellSourceView { start: min_u(prev.start, p.start), end: max_u(prev.end, p.end), ..p }
}

/// Adds `p` to the parts of a cell: each part that matches it is removed and absorbed
/// into it, and it takes the place of the first part it absorbed (or `at`).
pub open spec fn merge_from(parts: Seq<CellSourceView>, p: CellSourceView, at: int) -> Seq<
    CellSourceView,
>
    decreases parts.len(),
{
    let i = first_match(parts, p, 0);
    if 0 <= i < parts.len() {
        merge_from(parts.remove(i), widen(parts[i], p), if at < i { at } else { i })
    } else {
        parts.insert(
            if at < 0 {
                0
            } else if at < parts.len() {
                at
            } else {
                parts.len() as int
            },
            p,
        )
    }
}

/// Adds `p` to the parts of a cell, at the end unless it absorbs an earlier part.
pub open spec fn merge(parts: Seq<CellSourceView>, p: CellSourceView) -> Seq<CellSourceView> {
    merge_from(parts, p, parts.len() as int)
}

pub open spec fn sources_view(v: Seq<CellSource>) -> Seq<CellSourceView> {
    v.map_values(|s: CellSource| s@)
}

pub open spec fn parts_wf(parts: Seq<CellSourceView>) -> bool {
    forall|i: int| 0 <= i < parts.len() ==> source_wf(#[trigger] parts[i])
}

proof fn lemma_first_match_range(parts: Seq<CellSourceView>, p: CellSourceView, i: int)
    requires
        0 <= i,
    ensures
        first_match(parts, p, i) == -1 || (i <= first_match(parts, p, i) < parts.len()
            && parts_match(parts[first_match(parts, p, i)], p)),
    decreases parts.len() - i,
{
    if i < parts.len() && !parts_match(parts[i], p) {
        lemma_first_match_range(parts, p, i + 1);
    }
}

proof fn lemma_first_match_skip(parts: Seq<CellSourceView>, p: CellSourceView, i: int, j: int)
    requires
        0 <= i <= j <= parts.len(),
        forall|k: int| i <= k < j ==> !parts_match(#[trigger] parts[k], p),
    ensures
        first_match(parts, p, i) == first_match(parts, p, j),
    decreases j - i,
{
    if i < j {
        lemma_first_match_skip(parts, p, i + 1, j);
    }
}

/// Whether `prev` and `p` are parts of one cell line to be joined.
fn part_matches(prev: &CellSource, p: &CellSource) -> (r: bool)
    requires
        source_wf(prev@),
        source_wf(p@),
    ensures
        r == parts_match(prev@, p@),
{
    if prev.id != p.id || !same_chars(&prev.text, &p.text) {
        return false;
    }
    if prev.start <= p.end && p.start <= prev.end {
        return true;
    }
    let lo = if prev.end <= p.end {
        prev.end
    } else {
        p.end
    };
    let hi = if prev.start >= p.start {
        prev.start
    } else {
        p.start
    };
    blank_between(&prev.text, lo, hi)
}

/// The index of the first part that `p` absorbs.
fn find_match(parts: &Vec<CellSource>, p: &CellSource) -> (r: Option<usize>)
    requires
        parts_wf(sources_view(parts@)),
        source_wf(p@),
    ensures
        match r {
            Some(i) => i == first_match(sources_view(parts@), p@, 0),
            None => first_match(sources_view(parts@), p@, 0) == -1,
        },
{
    let ghost pv = sources_view(parts@);
    let mut j: usize = 0;
    while j < parts.len()
        invariant
            pv == sources_view(parts@),
            parts_wf(pv),
            source_wf(p@),
            j <= parts.len(),
            forall|k: int| 0 <= k < j ==> !parts_match(#[trigger] pv[k], p@),
        decreases parts.len() - j,
    {
        assert(source_wf(pv[j as int]));
        if part_matches(&parts[j], p) {
            proof {
                lemma_first_match_skip(pv, p@, 0, j as int);
            }
            return Some(j);
        }
        j += 1;
    }
    proof {
        lemma_first_match_skip(pv, p@, 0, j as int);
    }
    None
}

/// Adds `p` to the parts of one cell, absorbing every part of its cell line that it
/// overlaps, touches, or is separated from by white space only.
pub fn merge_part(parts: &mut Vec<CellSource>, p: CellSource)
    requires
        parts_wf(sources_view(old(parts)@)),
        source_wf(p@),
    ensures
        sources_view(final(parts)@) == merge(sources_view(old(parts)@), p@),
        parts_wf(sources_view(final(parts)@)),
{
    let mut q = p;
    let mut insert_at = parts.len();
    let ghost target = merge(sources_view(parts@), p@);
    let ghost p_in = p@;
    loop
        invariant
            parts_wf(sources_view(parts@)),
            source_wf(q@),
            insert_at <= usize::MAX,
            target == merge(sources_view(old(parts)@), p_in),
            p_in == p@,
            target == merge_from(sources_view(parts@), q@, insert_at as int),
        decreases parts.len(),
    {
        let ghost pv = sources_view(parts@);
        match find_match(parts, &q) {
            Some(i) => {
                proof {
                    lemma_first_match_range(pv, q@, 0);
                }
                let ghost p0 = q@;
                let prev = parts.remove(i);
                assert(sources_view(parts@) =~= pv.remove(i as int));
                assert(prev@ == pv[i as int]);
                if i < insert_at {
                    insert_at = i;
                }
                if prev.start < q.start {
                    q.start = prev.start;
                }
                if prev.end > q.end {
                    q.end = prev.end;
                }
                assert(q@ == widen(pv[i as int], p0));
                assert(parts_wf(sources_view(parts@)));
            },
            None => {
                let at = if insert_at < parts.len() {
                    insert_at
                } else {
                    parts.len()
                };
                assert(merge_from(pv, q@, insert_at as int) == pv.insert(at as int, q@));
                let ghost pf = q@;
                parts.insert(at, q);
                assert(sources_view(parts@) =~= pv.insert(at as int, pf));
                return ;
            },
        }
    }
}


/// The parts of one table cell gathered from a selection, as the copy sees them.
pub struct CellView {
    pub row: usize,
    pub column: usize,
    pub parts: Seq<CellSourceView>,
}

/// Whether cell key (`r1`, `c1`) comes before (`r2`, `c2`): by row, then by column.
pub open spec fn key_lt(r1: usize, c1: usize, r2: usize, c2: usize) -> bool {
    r1 < r2 || (r1 == r2 && c1 < c2)
}

/// Adds part `p` to cell (`row`, `column`) of a list of cells kept in key order.
pub open spec fn upsert(cells: Seq<CellView>, row: usize, column: usize, p: CellSourceView) -> Seq<
    CellView,
>
    decreases cells.len(),
{
    if cells.len() == 0 {
        seq![CellView { row, column, parts: seq![p] }]
    } else {
        let c = cells[0];
        if c.row == row && c.column == column {
            seq![CellView { row, column, parts: merge(c.parts, p) }] + cells.drop_first()
        } else if key_lt(row, column, c.row, c.column) {
            seq![CellView { row, column, parts: seq![p] }] + cells
        } else {
            seq![c] + upsert(cells.drop_first(), row, column, p)
        }
    }
}

/// The cells after adding what line `l` selects of fragments `fs`, in order.
pub open spec fn add_fragments(cells: Seq<CellView>, l: SelectedLineView, fs: Seq<FragmentView>) -> Seq<
    CellView,
>
    decreases fs.len(),
{
    if fs.len() == 0 {
        cells
    } else {
        let c = add_fragments(cells, l, fs.drop_last());
        let f = fs.last();
        match clip_selected(l, f) {
            Some(p) => upsert(c, f.row, f.column, p),
            None => c,
        }
    }
}

/// The cells that a selection of lines gathers, in key order.
pub open spec fn add_lines(lines: Seq<SelectedLineView>) -> Seq<CellView>
    decreases lines.len(),
{
    if lines.len() == 0 {
        Seq::empty()
    } else {
        let c = add_lines(lines.drop_last());
        match source_table(lines.last().source) {
            Some(t) => add_fragments(c, lines.last(), t.fragments),
            None => c,
        }
    }
}

/// The line shows a selected part of a table line without cells (a separator row).
pub open spec fn is_separator(l: SelectedLineView) -> bool {
    l.start < l.end && match source_table(l.source) {
        Some(t) => t.fragments.len() == 0,
        None => false,
    }
}

/// Some selected line is a separator row.
pub open spec fn includes_separator(lines: Seq<SelectedLineView>) -> bool {
    exists|i: int| 0 <= i < lines.len() && is_separator(#[trigger] lines[i])
}

/// The Markdown of one part of a cell; inside a table its pipes are escaped.
pub open spec fn part_text(p: CellSourceView, standalone: bool) -> Seq<char> {
    match p.copy {
        None => escape_spec(p.text.subrange(p.start as int, p.end as int)),
        Some(c) => cell_copy_render(
            CellCopyView { table_cell: !standalone, ..c },
            p.text,
            p.start as int,
            p.end as int,
        ),
    }
}

/// The Markdown of one cell: its parts, separated by single spaces.
pub open spec fn cell_text(parts: Seq<CellSourceView>, standalone: bool) -> Seq<char> {
    join(parts.map_values(|p: CellSourceView| part_text(p, standalone)), seq![' '])
}

/// The first cell of key (`row`, `column`).
pub open spec fn find_cell(cells: Seq<CellView>, row: usize, column: usize) -> Option<CellView>
    decreases cells.len(),
{
    if cells.len() == 0 {
        None
    } else if cells[0].row == row && cells[0].column == column {
        Some(cells[0])
    } else {
        find_cell(cells.drop_first(), row, column)
    }
}

/// What a table row shows in `column`: the cell's Markdown, or nothing.
pub open spec fn cell_value(cells: Seq<CellView>, row: usize, column: usize) -> Seq<char> {
    match find_cell(cells, row, column) {
        Some(c) => cell_text(c.parts, false),
        None => Seq::empty(),
    }
}

/// The rows of the cells, each once, in the cells' order.
pub open spec fn row_keys(cells: Seq<CellView>) -> Seq<usize>
    decreases cells.len(),
{
    if cells.len() == 0 {
        Seq::empty()
    } else {
        let r = row_keys(cells.drop_last());
        let row = cells.last().row;
        if r.len() > 0 && r.last() == row {
            r
        } else {
            r.push(row)
        }
    }
}

/// The rows a copied table shows: the header row 0 always, then the cells' rows.
pub open spec fn table_rows(cells: Seq<CellView>) -> Seq<usize> {
    let r = row_keys(cells);
    if r.len() > 0 && r[0] == 0 {
        r
    } else {
        seq![0usize] + r
    }
}

/// The values of one row, one per column of the table.
pub open spec fn row_values(cells: Seq<CellView>, row: usize, columns: nat) -> Seq<Seq<char>> {
    Seq::new(columns, |c: int| cell_value(cells, row, c as usize))
}

/// The alignment row of a table: `|` and each alignment followed by `|`.
pub open spec fn alignment_row(table: Seq<Seq<char>>) -> Seq<char> {
    seq!['|'] + concat(table.map_values(|a: Seq<char>| a + seq!['|']))
}

/// One Markdown table row; the header row is followed by the alignment row.
pub open spec fn row_line(cells: Seq<CellView>, row: usize, table: Seq<Seq<char>>) -> Seq<char> {
    seq!['|', ' '] + join(row_values(cells, row, table.len()), seq![' ', '|', ' ']) + seq![
        ' ',
        '|',
    ] + if row == 0 {
        seq!['\n'] + alignment_row(table)
    } else {
        Seq::empty()
    }
}

/// The selected cells written as a Markdown table.
pub open spec fn table_markdown(cells: Seq<CellView>, table: Seq<Seq<char>>) -> Seq<char> {
    join(table_rows(cells).map_values(|r: usize| row_line(cells, r, table)), seq!['\n'])
}

/// The visible selected text of each line, escaped, one line after another.
pub open spec fn plain_lines(lines: Seq<SelectedLineView>) -> Seq<char> {
    join(
        lines.map_values(
            |l: SelectedLineView| escape_spec(l.source.text.subrange(l.start as int, l.end as int)),
        ),
        seq!['\n'],
    )
}

/// A selection inside one cell and no separator copies as that cell's Markdown alone.
pub open spec fn is_standalone(lines: Seq<SelectedLineView>) -> bool {
    add_lines(lines).len() == 1 && !includes_separator(lines)
}

/// The Markdown copy of a selection of table lines.
pub open spec fn render_spec(lines: Seq<SelectedLineView>, table: Seq<Seq<char>>) -> Seq<char> {
    let cells = add_lines(lines);
    if is_standalone(lines) {
        cell_text(cells[0].parts, true)
    } else if cells.len() == 0 {
        plain_lines(lines)
    } else {
        table_markdown(cells, table)
    }
}

/// The selected cells all have a column of the table, where a table is written.
pub open spec fn columns_fit(lines: Seq<SelectedLineView>, table: Seq<Seq<char>>) -> bool {
    let cells = add_lines(lines);
    is_standalone(lines) || forall|i: int| 0 <= i < cells.len() ==> (#[trigger] cells[i]).column
        < table.len()
}


/// The part of fragment `f` that `line` selects.
fn clip(line: &SelectedLine, f: &Fragment) -> (r: Option<CellSource>)
    requires
        fragment_wf(f@),
    ensures
        match r {
            Some(c) => clip_selected(line@, f@) == Some(c@) && source_wf(c@),
            None => clip_selected(line@, f@) is None,
        },
{
    let blank = line.source.start >= line.source.end && blank_between(
        &line.source.text,
        0,
        line.source.text.len(),
    ) && blank_between(&f.source.text, 0, f.source.text.len());
    assert(line.source.text@.subrange(0, line.source.text.len() as int) == line.source.text@);
    assert(f.source.text@.subrange(0, f.source.text.len() as int) == f.source.text@);
    let start = if line.start >= f.output_start {
        line.start
    } else {
        f.output_start
    };
    let end = if line.end <= f.output_end {
        line.end
    } else {
        f.output_end
    };
    if !blank && (start > end || (start == end && f.source.text.len() > 0)) {
        return None;
    }
    let mut source = f.source.clone();
    if !blank {
        source.start = f.source.start + (start - f.output_start);
        source.end = f.source.start + (end - f.output_start);
    }
    Some(source)
}

/// One entry of the cell map, taken out in key order: the cell's key and its parts.
struct CellParts {
    row: usize,
    column: usize,
    parts: Vec<CellSource>,
}

spec fn cell_parts_view(c: CellParts) -> CellView {
    CellView { row: c.row, column: c.column, parts: sources_view(c.parts@) }
}

spec fn cells_view(v: Seq<CellParts>) -> Seq<CellView> {
    v.map_values(|c: CellParts| cell_parts_view(c))
}

pub open spec fn cells_wf(cells: Seq<CellView>) -> bool {
    forall|i: int| 0 <= i < cells.len() ==> parts_wf(#[trigger] cells[i].parts)
}

proof fn lemma_merge_wf(parts: Seq<CellSourceView>, p: CellSourceView, at: int)
    requires
        parts_wf(parts),
        source_wf(p),
    ensures
        parts_wf(merge_from(parts, p, at)),
    decreases parts.len(),
{
    lemma_first_match_range(parts, p, 0);
    let i = first_match(parts, p, 0);
    if 0 <= i < parts.len() {
        assert(source_wf(parts[i]));
        let rest = parts.remove(i);
        assert(parts_wf(rest)) by {
            assert forall|k: int| 0 <= k < rest.len() implies source_wf(#[trigger] rest[k]) by {
                if k < i {
                    assert(rest[k] == parts[k]);
                } else {
                    assert(rest[k] == parts[k + 1]);
                }
            }
        }
        lemma_merge_wf(rest, widen(parts[i], p), if at < i { at } else { i });
    } else {
        let j = if at < 0 {
            0
        } else if at < parts.len() {
            at
        } else {
            parts.len() as int
        };
        let r = parts.insert(j, p);
        assert forall|k: int| 0 <= k < r.len() implies source_wf(#[trigger] r[k]) by {
            if k < j {
                assert(r[k] == parts[k]);
            } else if k > j {
                assert(r[k] == parts[k - 1]);
            }
        }
    }
}

proof fn lemma_upsert_wf(cells: Seq<CellView>, row: usize, column: usize, p: CellSourceView)
    requires
        cells_wf(cells),
        source_wf(p),
    ensures
        cells_wf(upsert(cells, row, column, p)),
    decreases cells.len(),
{
    if cells.len() > 0 {
        let c = cells[0];
        assert(parts_wf(c.parts));
        if c.row == row && c.column == column {
            lemma_merge_wf(c.parts, p, c.parts.len() as int);
            let r = upsert(cells, row, column, p);
            assert forall|k: int| 0 <= k < r.len() implies parts_wf(#[trigger] r[k].parts) by {
                if k > 0 {
                    assert(r[k] == cells[k]);
                }
            }
        } else if key_lt(row, column, c.row, c.column) {
            let r = upsert(cells, row, column, p);
            assert forall|k: int| 0 <= k < r.len() implies parts_wf(#[trigger] r[k].parts) by {
                if k > 0 {
                    assert(r[k] == cells[k - 1]);
                }
            }
        } else {
            let rest = cells.drop_first();
            assert forall|k: int| 0 <= k < rest.len() implies parts_wf(#[trigger] rest[k].parts) by {
                assert(rest[k] == cells[k + 1]);
            }
            lemma_upsert_wf(rest, row, column, p);
            let r = upsert(cells, row, column, p);
            let u = upsert(rest, row, column, p);
            assert forall|k: int| 0 <= k < r.len() implies parts_wf(#[trigger] r[k].parts) by {
                if k > 0 {
                    assert(r[k] == u[k - 1]);
                }
            }
        }
    }
}

/// The key of a cell.
pub open spec fn cell_key(c: CellView) -> (usize, usize) {
    (c.row, c.column)
}

/// The keys of the cells, in their order.
pub open spec fn cell_keys(cells: Seq<CellView>) -> Seq<(usize, usize)> {
    cells.map_values(|c: CellView| cell_key(c))
}

/// The parts a cell of key (`row`, `column`) has before `p` is added: its parts, or none.
pub open spec fn parts_before(cells: Seq<CellView>, row: usize, column: usize) -> Seq<CellSourceView> {
    match find_cell(cells, row, column) {
        Some(c) => c.parts,
        None => Seq::empty(),
    }
}

/// A cell of `upsert(cells, row, column, p)`: the cell `p` went into, or one of `cells`.
pub open spec fn upserted(
    cells: Seq<CellView>,
    row: usize,
    column: usize,
    p: CellSourceView,
    x: CellView,
) -> bool {
    if x.row == row && x.column == column {
        x.parts == merge(parts_before(cells, row, column), p)
    } else {
        cells.contains(x)
    }
}

proof fn lemma_find_cell_first(cells: Seq<CellView>, row: usize, column: usize)
    requires
        keys_sorted(cells),
        cells.len() > 0,
        key_lt(row, column, cells[0].row, cells[0].column),
    ensures
        find_cell(cells, row, column) is None,
        !cell_keys(cells).contains((row, column)),
    decreases cells.len(),
{
    let rest = cells.drop_first();
    assert(!(cells[0].row == row && cells[0].column == column));
    assert(find_cell(cells, row, column) == find_cell(rest, row, column));
    if rest.len() > 0 {
        assert(key_lt(cells[0].row, cells[0].column, cells[1].row, cells[1].column));
        assert(rest[0] == cells[1]);
        assert forall|i: int, j: int| 0 <= i < j < rest.len() implies key_lt(
            #[trigger] rest[i].row,
            rest[i].column,
            #[trigger] rest[j].row,
            rest[j].column,
        ) by {
            assert(rest[i] == cells[i + 1] && rest[j] == cells[j + 1]);
        }
        lemma_find_cell_first(rest, row, column);
    }
    if cell_keys(cells).contains((row, column)) {
        let k = choose|k: int| 0 <= k < cell_keys(cells).len() && cell_keys(cells)[k] == (row, column);
        if k > 0 {
            assert(cell_keys(rest)[k - 1] == cell_keys(cells)[k]);
        }
    }
}

proof fn lemma_merge_empty(p: CellSourceView)
    ensures
        merge(Seq::empty(), p) == seq![p],
{
    assert(first_match(Seq::empty(), p, 0) == -1);
    assert(Seq::<CellSourceView>::empty().insert(0, p) =~= seq![p]);
}

proof fn lemma_contains_cons<A>(x: A, s: Seq<A>)
    ensures
        forall|k: A| #[trigger] (seq![x] + s).contains(k) <==> (k == x || s.contains(k)),
{
    let t = seq![x] + s;
    assert forall|k: A| #[trigger] t.contains(k) <==> (k == x || s.contains(k)) by {
        if t.contains(k) {
            let i = choose|i: int| 0 <= i < t.len() && t[i] == k;
            if i > 0 {
                assert(s[i - 1] == k);
            }
        }
        if k == x {
            assert(t[0] == k);
        }
        if s.contains(k) {
            let i = choose|i: int| 0 <= i < s.len() && s[i] == k;
            assert(t[i + 1] == k);
        }
    }
}

proof fn lemma_upsert_model(cells: Seq<CellView>, row: usize, column: usize, p: CellSourceView)
    requires
        keys_sorted(cells),
    ensures
        ({
            let u = upsert(cells, row, column, p);
            &&& forall|i: int| 0 <= i < u.len() ==> upserted(cells, row, column, p, #[trigger] u[i])
            &&& forall|k: (usize, usize)|
                #[trigger] cell_keys(u).contains(k) <==> (cell_keys(cells).contains(k) || k == (
                    row,
                    column,
                ))
        }),
    decreases cells.len(),
{
    lemma_merge_empty(p);
    let u = upsert(cells, row, column, p);
    if cells.len() == 0 {
        assert(cell_keys(u) =~= seq![(row, column)] + cell_keys(cells));
        lemma_contains_cons((row, column), cell_keys(cells));
    } else {
        let c = cells[0];
        let rest = cells.drop_first();
        if c.row == row && c.column == column {
            assert(parts_before(cells, row, column) == c.parts);
            assert forall|i: int| 0 <= i < u.len() implies upserted(
                cells,
                row,
                column,
                p,
                #[trigger] u[i],
            ) by {
                if i > 0 {
                    assert(u[i] == cells[i]);
                    if u[i].row == row && u[i].column == column {
                        assert(key_lt(cells[0].row, cells[0].column, cells[i].row, cells[i].column));
                    }
                }
            }
            assert(cell_keys(u) =~= seq![(row, column)] + cell_keys(rest));
            assert(cell_keys(cells) =~= seq![(row, column)] + cell_keys(rest));
            lemma_contains_cons((row, column), cell_keys(rest));
        } else if key_lt(row, column, c.row, c.column) {
            lemma_find_cell_first(cells, row, column);
            assert forall|i: int| 0 <= i < u.len() implies upserted(
                cells,
                row,
                column,
                p,
                #[trigger] u[i],
            ) by {
                if i > 0 {
                    assert(u[i] == cells[i - 1]);
                    if u[i].row == row && u[i].column == column {
                        assert(cell_keys(cells)[i - 1] == (row, column));
                    }
                }
            }
            assert(cell_keys(u) =~= seq![(row, column)] + cell_keys(cells));
            lemma_contains_cons((row, column), cell_keys(cells));
        } else {
            assert forall|i: int, j: int| 0 <= i < j < rest.len() implies key_lt(
                #[trigger] rest[i].row,
                rest[i].column,
                #[trigger] rest[j].row,
                rest[j].column,
            ) by {
                assert(rest[i] == cells[i + 1] && rest[j] == cells[j + 1]);
            }
            lemma_upsert_model(rest, row, column, p);
            let ur = upsert(rest, row, column, p);
            assert(u == seq![c] + ur);
            assert(parts_before(cells, row, column) == parts_before(rest, row, column));
            assert forall|i: int| 0 <= i < u.len() implies upserted(
                cells,
                row,
                column,
                p,
                #[trigger] u[i],
            ) by {
                if i == 0 {
                    assert(cells[0] == c);
                } else {
                    assert(u[i] == ur[i - 1]);
                    assert(upserted(rest, row, column, p, ur[i - 1]));
                    if !(u[i].row == row && u[i].column == column) {
                        let m = choose|m: int| 0 <= m < rest.len() && rest[m] == ur[i - 1];
                        assert(cells[m + 1] == rest[m]);
                    }
                }
            }
            assert(cell_keys(u) =~= seq![cell_key(c)] + cell_keys(ur));
            assert(cell_keys(cells) =~= seq![cell_key(c)] + cell_keys(rest));
            lemma_contains_cons(cell_key(c), cell_keys(ur));
            lemma_contains_cons(cell_key(c), cell_keys(rest));
        }
    }
}

/// The map holds the cells: a key for each cell, and each cell's parts under its key.
pub open spec fn map_holds(m: Map<(usize, usize), Vec<CellSource>>, cells: Seq<CellView>) -> bool {
    &&& forall|k: (usize, usize)| #[trigger] m.contains_key(k) <==> cell_keys(cells).contains(k)
    &&& forall|i: int|
        0 <= i < cells.len() ==> sources_view(m[cell_key(#[trigger] cells[i])]@) == cells[i].parts
}

proof fn lemma_find_cell_in(cells: Seq<CellView>, row: usize, column: usize)
    ensures
        cell_keys(cells).contains((row, column)) ==> exists|i: int|
            0 <= i < cells.len() && find_cell(cells, row, column) == Some(#[trigger] cells[i])
                && cells[i].row == row && cells[i].column == column,
        !cell_keys(cells).contains((row, column)) ==> find_cell(cells, row, column) is None,
    decreases cells.len(),
{
    if cells.len() > 0 {
        let rest = cells.drop_first();
        assert(cell_keys(cells) =~= seq![cell_key(cells[0])] + cell_keys(rest));
        lemma_contains_cons(cell_key(cells[0]), cell_keys(rest));
        lemma_find_cell_in(rest, row, column);
        if !(cells[0].row == row && cells[0].column == column) && cell_keys(rest).contains(
            (row, column),
        ) {
            let i = choose|i: int|
                0 <= i < rest.len() && find_cell(rest, row, column) == Some(#[trigger] rest[i])
                    && rest[i].row == row && rest[i].column == column;
            assert(cells[i + 1] == rest[i]);
        }
    }
}

/// Adds part `p` to cell (`row`, `column`) of the map that holds `cells`.
fn upsert_map(
    m: &mut BTreeMap<(usize, usize), Vec<CellSource>>,
    row: usize,
    column: usize,
    p: CellSource,
    Ghost(cells): Ghost<Seq<CellView>>,
)
    requires
        keys_sorted(cells),
        cells_wf(cells),
        map_holds(old(m)@, cells),
        source_wf(p@),
    ensures
        map_holds(final(m)@, upsert(cells, row, column, p@)),
{
    broadcast use vstd::std_specs::btree::group_btree_axioms;

    let ghost pv = p@;
    let ghost m0 = m@;
    proof {
        lemma_upsert_model(cells, row, column, pv);
        lemma_find_cell_in(cells, row, column);
        lemma_merge_empty(pv);
    }
    let key = (row, column);
    let mut parts = match m.remove(&key) {
        Some(v) => v,
        None => Vec::new(),
    };
    assert(sources_view(parts@) == parts_before(cells, row, column)) by {
        if cell_keys(cells).contains(key) {
            let i = choose|i: int|
                0 <= i < cells.len() && find_cell(cells, row, column) == Some(#[trigger] cells[i])
                    && cells[i].row == row && cells[i].column == column;
            assert(cell_key(cells[i]) == key);
        } else {
            assert(sources_view(parts@) =~= Seq::<CellSourceView>::empty());
        }
    }
    assert(parts_wf(sources_view(parts@))) by {
        if cell_keys(cells).contains(key) {
            let i = choose|i: int|
                0 <= i < cells.len() && find_cell(cells, row, column) == Some(#[trigger] cells[i])
                    && cells[i].row == row && cells[i].column == column;
            assert(parts_wf(cells[i].parts));
        }
    }
    merge_part(&mut parts, p);
    let ghost merged = sources_view(parts@);
    m.insert(key, parts);
    let ghost u = upsert(cells, row, column, pv);
    assert(m@ == m0.insert(key, m@[key]));
    assert forall|i: int| 0 <= i < u.len() implies sources_view(
        m@[cell_key(#[trigger] u[i])]@,
    ) == u[i].parts by {
        assert(upserted(cells, row, column, pv, u[i]));
        if !(u[i].row == row && u[i].column == column) {
            let j = choose|j: int| 0 <= j < cells.len() && cells[j] == u[i];
            assert(sources_view(m0[cell_key(cells[j])]@) == cells[j].parts);
        }
    }
}

/// The keys increase strictly, by row and then by column.
pub open spec fn keys_increasing(ks: Seq<(usize, usize)>) -> bool {
    forall|i: int, j: int|
        0 <= i < j < ks.len() ==> key_lt(#[trigger] ks[i].0, ks[i].1, #[trigger] ks[j].0, ks[j].1)
}

proof fn lemma_sorted_unique(a: Seq<(usize, usize)>, b: Seq<(usize, usize)>)
    requires
        keys_increasing(a),
        keys_increasing(b),
        forall|k: (usize, usize)| a.contains(k) <==> b.contains(k),
    ensures
        a == b,
    decreases a.len(),
{
    if a.len() == 0 {
        if b.len() > 0 {
            assert(b.contains(b[0]));
        }
        assert(a =~= b);
    } else if b.len() == 0 {
        assert(a.contains(a[0]));
    } else {
        assert(a.contains(a[0]));
        assert(b.contains(b[0]));
        let j = choose|j: int| 0 <= j < b.len() && b[j] == a[0];
        let i = choose|i: int| 0 <= i < a.len() && a[i] == b[0];
        if j > 0 {
            assert(key_lt(b[0].0, b[0].1, b[j].0, b[j].1));
            if i > 0 {
                assert(key_lt(a[0].0, a[0].1, a[i].0, a[i].1));
            }
        }
        assert(a[0] == b[0]);
        let a1 = a.drop_first();
        let b1 = b.drop_first();
        assert forall|k: (usize, usize)| a1.contains(k) <==> b1.contains(k) by {
            if a1.contains(k) {
                let x = choose|x: int| 0 <= x < a1.len() && a1[x] == k;
                assert(a[x + 1] == k);
                assert(key_lt(a[0].0, a[0].1, a[x + 1].0, a[x + 1].1));
                assert(b.contains(k));
                let y = choose|y: int| 0 <= y < b.len() && b[y] == k;
                assert(y != 0);
                assert(b1[y - 1] == k);
            }
            if b1.contains(k) {
                let x = choose|x: int| 0 <= x < b1.len() && b1[x] == k;
                assert(b[x + 1] == k);
                assert(key_lt(b[0].0, b[0].1, b[x + 1].0, b[x + 1].1));
                assert(a.contains(k));
                let y = choose|y: int| 0 <= y < a.len() && a[y] == k;
                assert(y != 0);
                assert(a1[y - 1] == k);
            }
        }
        assert forall|x: int, y: int| 0 <= x < y < a1.len() implies key_lt(
            #[trigger] a1[x].0,
            a1[x].1,
            #[trigger] a1[y].0,
            a1[y].1,
        ) by {
            assert(a1[x] == a[x + 1] && a1[y] == a[y + 1]);
        }
        assert forall|x: int, y: int| 0 <= x < y < b1.len() implies key_lt(
            #[trigger] b1[x].0,
            b1[x].1,
            #[trigger] b1[y].0,
            b1[y].1,
        ) by {
            assert(b1[x] == b[x + 1] && b1[y] == b[y + 1]);
        }
        lemma_sorted_unique(a1, b1);
        assert(a =~= seq![a[0]] + a1);
        assert(b =~= seq![b[0]] + b1);
    }
}

proof fn lemma_increasing_keys(ks: Seq<&(usize, usize)>)
    requires
        vstd::std_specs::btree::increasing_seq(ks),
    ensures
        keys_increasing(ks.map_values(|k: &(usize, usize)| *k)),
{
    broadcast use vstd::std_specs::btree::group_btree_axioms;

    let v = ks.map_values(|k: &(usize, usize)| *k);
    assert forall|i: int, j: int| 0 <= i < j < v.len() implies key_lt(
        #[trigger] v[i].0,
        v[i].1,
        #[trigger] v[j].0,
        v[j].1,
    ) by {
        assert(vstd::laws_cmp::obeys_cmp::<&(usize, usize)>());
        assert(vstd::std_specs::cmp::OrdSpec::cmp_spec(&ks[i], &ks[j]) is Less);
        assert(v[i] == *ks[i] && v[j] == *ks[j]);
    }
}

/// The cells of the map that holds `cells`, in key order.
fn cells_in_order(
    m: BTreeMap<(usize, usize), Vec<CellSource>>,
    Ghost(cells): Ghost<Seq<CellView>>,
) -> (r: Vec<CellParts>)
    requires
        keys_sorted(cells),
        map_holds(m@, cells),
    ensures
        cells_view(r@) == cells,
{
    broadcast use vstd::std_specs::btree::group_btree_axioms;

    let mut m = m;
    let ghost m0 = m@;
    proof {
        vstd::std_specs::btree::axiom_spec_keys_iter(&m);
    }
    let ghost ks = vstd::std_specs::iter::IteratorSpec::remaining(&vstd::std_specs::btree::spec_keys_iter(&m));
    let mut keys: Vec<(usize, usize)> = Vec::new();
    for k in it: m.keys()
        invariant
            it.seq() == ks,
            keys@ == ks.take(it.index() as int).map_values(|k: &(usize, usize)| *k),
    {
        keys.push(*k);
        assert(ks.take(it.index() + 1).map_values(|k: &(usize, usize)| *k) =~= keys@);
    }
    assert(keys@ =~= ks.map_values(|k: &(usize, usize)| *k));
    let ghost kv = keys@;
    let ghost ck = cell_keys(cells);
    proof {
        lemma_increasing_keys(ks);
        assert(ks.unref() =~= kv);
        assert forall|k: (usize, usize)| kv.contains(k) <==> ck.contains(k) by {
            assert(kv.to_set().contains(k) == kv.contains(k));
            assert(m0.contains_key(k) <==> ck.contains(k));
        }
        assert forall|i: int, j: int| 0 <= i < j < ck.len() implies key_lt(
            #[trigger] ck[i].0,
            ck[i].1,
            #[trigger] ck[j].0,
            ck[j].1,
        ) by {
            assert(ck[i] == cell_key(cells[i]) && ck[j] == cell_key(cells[j]));
        }
        lemma_sorted_unique(kv, ck);
        assert forall|j: int| 0 <= j < kv.len() implies #[trigger] m@.contains_key(kv[j]) by {
            assert(kv.contains(kv[j]));
        }
    }
    let mut out: Vec<CellParts> = Vec::new();
    let mut i: usize = 0;
    while i < keys.len()
        invariant
            i <= kv.len(),
            kv == keys@,
            kv == ck,
            ck == cell_keys(cells),
            map_holds(m0, cells),
            keys_increasing(kv),
            forall|j: int|
                i <= j < kv.len() ==> #[trigger] m@.contains_key(kv[j]) && m@[kv[j]] == m0[kv[j]],
            cells_view(out@) == cells.take(i as int),
        decreases kv.len() - i,
    {
        let key = keys[i];
        assert(m@.contains_key(kv[i as int]));
        let ghost before = m@;
        let parts = match m.remove(&key) {
            Some(v) => v,
            None => Vec::new(),
        };
        assert(parts == m0[kv[i as int]]);
        assert(cell_key(cells[i as int]) == kv[i as int]);
        assert(m@ == before.remove(key));
        let c = CellParts { row: key.0, column: key.1, parts };
        assert(cell_parts_view(c) == cells[i as int]);
        let ghost old_out = out@;
        out.push(c);
        assert(cells_view(out@) =~= cells_view(old_out).push(cell_parts_view(c)));
        assert(cells_view(out@) =~= cells.take(i + 1));
        assert forall|j: int| i + 1 <= j < kv.len() implies #[trigger] m@.contains_key(kv[j])
            && m@[kv[j]] == m0[kv[j]] by {
            assert(key_lt(kv[i as int].0, kv[i as int].1, kv[j].0, kv[j].1));
            assert(kv[j] != key);
            assert(before.contains_key(kv[j]));
            assert(before[kv[j]] == m0[kv[j]]);
        }
        i += 1;
    }
    assert(cells.take(cells.len() as int) =~= cells);
    out
}

proof fn lemma_join_step(parts: Seq<Seq<char>>, sep: Seq<char>, i: int)
    requires
        0 <= i < parts.len(),
    ensures
        join(parts.take(i + 1), sep) == if i == 0 {
            parts[0]
        } else {
            join(parts.take(i), sep) + sep + parts[i]
        },
{
    assert(parts.take(i + 1).drop_last() =~= parts.take(i));
}

/// The vectors of `parts` with `sep` between each two neighbours.
pub fn join_chars(parts: &Vec<Vec<char>>, sep: &Vec<char>) -> (r: Vec<char>)
    ensures
        r@ == join(texts_view(parts@), sep@),
{
    let ghost tv = texts_view(parts@);
    let mut r: Vec<char> = Vec::new();
    for i in 0..parts.len()
        invariant
            tv == texts_view(parts@),
            r@ == join(tv.take(i as int), sep@),
    {
        proof {
            lemma_join_step(tv, sep@, i as int);
        }
        if i > 0 {
            push_range(&mut r, sep, 0, sep.len());
            assert(sep@.subrange(0, sep.len() as int) == sep@);
        }
        push_range(&mut r, &parts[i], 0, parts[i].len());
        assert(parts@[i as int]@.subrange(0, parts[i as int].len() as int) == tv[i as int]);
    }
    assert(tv.take(parts.len() as int) == tv);
    r
}

/// The Markdown of one part of a cell.
fn part_markdown(p: &CellSource, standalone: bool) -> (r: Vec<char>)
    requires
        source_wf(p@),
    ensures
        r@ == part_text(p@, standalone),
{
    match &p.copy {
        None => escape(&p.text, p.start, p.end),
        Some(c) => {
            let copy = CellCopy { marker: copy_chars(&c.marker), code: c.code, table_cell: !standalone };
            copy.render(&p.text, p.start, p.end)
        },
    }
}

/// The Markdown of one cell.
fn cell_markdown(parts: &Vec<CellSource>, standalone: bool) -> (r: Vec<char>)
    requires
        parts_wf(sources_view(parts@)),
    ensures
        r@ == cell_text(sources_view(parts@), standalone),
{
    let ghost pv = sources_view(parts@);
    let mut texts: Vec<Vec<char>> = Vec::new();
    for i in 0..parts.len()
        invariant
            pv == sources_view(parts@),
            parts_wf(pv),
            texts.len() == i,
            forall|k: int| 0 <= k < i ==> (#[trigger] texts@[k])@ == part_text(pv[k], standalone),
    {
        assert(source_wf(pv[i as int]));
        texts.push(part_markdown(&parts[i], standalone));
    }
    let mut sep: Vec<char> = Vec::new();
    sep.push(' ');
    assert(texts_view(texts@) =~= pv.map_values(|p: CellSourceView| part_text(p, standalone)));
    assert(sep@ =~= seq![' ']);
    join_chars(&texts, &sep)
}

proof fn lemma_find_cell_push(s: Seq<CellView>, x: CellView, row: usize, column: usize)
    ensures
        find_cell(s.push(x), row, column) == match find_cell(s, row, column) {
            Some(y) => Some(y),
            None => if x.row == row && x.column == column {
                Some(x)
            } else {
                None
            },
        },
    decreases s.len(),
{
    if s.len() > 0 {
        assert(s.push(x).drop_first() =~= s.drop_first().push(x));
        assert(s.push(x)[0] == s[0]);
        lemma_find_cell_push(s.drop_first(), x, row, column);
    } else {
        assert(s.push(x).drop_first() =~= Seq::<CellView>::empty());
        assert(s.push(x)[0] == x);
        assert(find_cell(Seq::<CellView>::empty(), row, column) is None);
    }
}

proof fn lemma_find_cell_before(cells: Seq<CellView>, i: int)
    requires
        keys_sorted(cells),
        0 <= i < cells.len(),
    ensures
        find_cell(cells.take(i), cells[i].row, cells[i].column) is None,
{
    let s = cells.take(i);
    lemma_find_cell_in(s, cells[i].row, cells[i].column);
    if cell_keys(s).contains((cells[i].row, cells[i].column)) {
        let k = choose|k: int|
            0 <= k < s.len() && find_cell(s, cells[i].row, cells[i].column) == Some(#[trigger] s[k])
                && s[k].row == cells[i].row && s[k].column == cells[i].column;
        assert(s[k] == cells[k]);
        assert(key_lt(cells[k].row, cells[k].column, cells[i].row, cells[i].column));
    }
}

/// The rows increase strictly.
pub open spec fn rows_increasing(rs: Seq<usize>) -> bool {
    forall|i: int, j: int| 0 <= i < j < rs.len() ==> #[trigger] rs[i] < #[trigger] rs[j]
}

proof fn lemma_row_keys(cells: Seq<CellView>)
    requires
        keys_sorted(cells),
    ensures
        rows_increasing(row_keys(cells)),
        forall|r: usize|
            #[trigger] row_keys(cells).contains(r) <==> exists|k: int|
                0 <= k < cells.len() && (#[trigger] cells[k]).row == r,
    decreases cells.len(),
{
    if cells.len() > 0 {
        let s = cells.drop_last();
        let x = cells.last();
        assert forall|i: int, j: int| 0 <= i < j < s.len() implies key_lt(
            #[trigger] s[i].row,
            s[i].column,
            #[trigger] s[j].row,
            s[j].column,
        ) by {
            assert(s[i] == cells[i] && s[j] == cells[j]);
        }
        lemma_row_keys(s);
        let rk = row_keys(s);
        assert forall|r: usize| #[trigger] row_keys(cells).contains(r) <==> exists|k: int|
            0 <= k < cells.len() && (#[trigger] cells[k]).row == r by {
            if row_keys(cells).contains(r) {
                if rk.len() > 0 && rk.last() == x.row {
                    assert(rk.contains(r));
                    let k = choose|k: int| 0 <= k < s.len() && (#[trigger] s[k]).row == r;
                    assert(cells[k] == s[k]);
                } else {
                    let q = choose|q: int| 0 <= q < rk.push(x.row).len() && rk.push(x.row)[q] == r;
                    if q < rk.len() {
                        assert(rk.contains(r));
                        let k = choose|k: int| 0 <= k < s.len() && (#[trigger] s[k]).row == r;
                        assert(cells[k] == s[k]);
                    } else {
                        assert(cells[cells.len() - 1].row == r);
                    }
                }
            }
            if exists|k: int| 0 <= k < cells.len() && (#[trigger] cells[k]).row == r {
                let k = choose|k: int| 0 <= k < cells.len() && (#[trigger] cells[k]).row == r;
                if k < s.len() {
                    assert(s[k] == cells[k]);
                    assert(rk.contains(r));
                    let q = choose|q: int| 0 <= q < rk.len() && rk[q] == r;
                    if rk.len() > 0 && rk.last() == x.row {
                        assert(row_keys(cells)[q] == r);
                    } else {
                        assert(rk.push(x.row)[q] == r);
                    }
                } else {
                    if rk.len() > 0 && rk.last() == x.row {
                        assert(row_keys(cells)[rk.len() - 1] == r);
                    } else {
                        assert(rk.push(x.row)[rk.len() as int] == r);
                    }
                }
            }
        }
        if !(rk.len() > 0 && rk.last() == x.row) && rk.len() > 0 {
            assert(rk.contains(rk.last()));
            let k = choose|k: int| 0 <= k < s.len() && (#[trigger] s[k]).row == rk.last();
            assert(key_lt(cells[k].row, cells[k].column, x.row, x.column));
            let n = rk.push(x.row);
            assert forall|i: int, j: int| 0 <= i < j < n.len() implies #[trigger] n[i] < #[trigger] n[j] by {
                if j == rk.len() {
                    if i < rk.len() - 1 {
                        assert(rk[i] < rk[rk.len() - 1]);
                    }
                }
            }
        }
    }
}

/// The sorted rows of two sequences with the same rows are the same.
proof fn lemma_rows_unique(a: Seq<usize>, b: Seq<usize>)
    requires
        rows_increasing(a),
        rows_increasing(b),
        forall|k: usize| a.contains(k) <==> b.contains(k),
    ensures
        a == b,
    decreases a.len(),
{
    if a.len() == 0 {
        if b.len() > 0 {
            assert(b.contains(b[0]));
        }
        assert(a =~= b);
    } else if b.len() == 0 {
        assert(a.contains(a[0]));
    } else {
        assert(a.contains(a[0]));
        assert(b.contains(b[0]));
        let j = choose|j: int| 0 <= j < b.len() && b[j] == a[0];
        let i = choose|i: int| 0 <= i < a.len() && a[i] == b[0];
        if j > 0 {
            assert(b[0] < b[j]);
            if i > 0 {
                assert(a[0] < a[i]);
            }
        }
        assert(a[0] == b[0]);
        let a1 = a.drop_first();
        let b1 = b.drop_first();
        assert forall|k: usize| a1.contains(k) <==> b1.contains(k) by {
            if a1.contains(k) {
                let x = choose|x: int| 0 <= x < a1.len() && a1[x] == k;
                assert(a[x + 1] == k);
                assert(a[0] < a[x + 1]);
                assert(b.contains(k));
                let y = choose|y: int| 0 <= y < b.len() && b[y] == k;
                assert(b1[y - 1] == k);
            }
            if b1.contains(k) {
                let x = choose|x: int| 0 <= x < b1.len() && b1[x] == k;
                assert(b[x + 1] == k);
                assert(b[0] < b[x + 1]);
                assert(a.contains(k));
                let y = choose|y: int| 0 <= y < a.len() && a[y] == k;
                assert(a1[y - 1] == k);
            }
        }
        assert forall|x: int, y: int| 0 <= x < y < a1.len() implies #[trigger] a1[x] < #[trigger] a1[y] by {
            assert(a1[x] == a[x + 1] && a1[y] == a[y + 1]);
        }
        assert forall|x: int, y: int| 0 <= x < y < b1.len() implies #[trigger] b1[x] < #[trigger] b1[y] by {
            assert(b1[x] == b[x + 1] && b1[y] == b[y + 1]);
        }
        lemma_rows_unique(a1, b1);
        assert(a =~= seq![a[0]] + a1);
        assert(b =~= seq![b[0]] + b1);
    }
}

proof fn lemma_table_rows(cells: Seq<CellView>)
    requires
        keys_sorted(cells),
    ensures
        rows_increasing(table_rows(cells)),
        forall|r: usize|
            #[trigger] table_rows(cells).contains(r) <==> (r == 0 || row_keys(cells).contains(r)),
{
    lemma_row_keys(cells);
    let rk = row_keys(cells);
    if !(rk.len() > 0 && rk[0] == 0) {
        let t = seq![0usize] + rk;
        lemma_contains_cons(0usize, rk);
        assert forall|i: int, j: int| 0 <= i < j < t.len() implies #[trigger] t[i] < #[trigger] t[j] by {
            if i == 0 {
                assert(t[j] == rk[j - 1]);
                if j > 1 {
                    assert(rk[0] < rk[j - 1]);
                }
            } else {
                assert(t[i] == rk[i - 1] && t[j] == rk[j - 1]);
            }
        }
    } else {
        assert(rk.contains(0usize));
    }
}

/// The map holds a Markdown row for the header row and for each row of the cells: under
/// the row's key, the text of each of its `n` columns.
pub open spec fn rows_hold(m: Map<usize, Vec<Vec<char>>>, cells: Seq<CellView>, n: nat) -> bool {
    &&& forall|r: usize| #[trigger] m.contains_key(r) <==> (r == 0 || row_keys(cells).contains(r))
    &&& forall|r: usize| #[trigger] m.contains_key(r) ==> texts_view(m[r]@) == row_values(cells, r, n)
}

proof fn lemma_rows_step(cv: Seq<CellView>, i: int)
    requires
        keys_sorted(cv),
        0 <= i < cv.len(),
    ensures
        forall|r: usize, c: usize| #[trigger] cell_value(cv.take(i + 1), r, c) == if r == cv[i].row
            && c == cv[i].column {
            cell_text(cv[i].parts, false)
        } else {
            cell_value(cv.take(i), r, c)
        },
        forall|r: usize|
            #[trigger] row_keys(cv.take(i + 1)).contains(r) <==> (row_keys(cv.take(i)).contains(r)
                || r == cv[i].row),
        forall|r: usize, c: usize|
            !row_keys(cv.take(i)).contains(r) ==> #[trigger] cell_value(cv.take(i), r, c)
                == Seq::<char>::empty(),
{
    let s = cv.take(i);
    let x = cv[i];
    assert(cv.take(i + 1) =~= s.push(x));
    lemma_find_cell_before(cv, i);
    assert forall|r: usize, c: usize| #[trigger] cell_value(cv.take(i + 1), r, c) == if r == x.row
        && c == x.column {
        cell_text(x.parts, false)
    } else {
        cell_value(s, r, c)
    } by {
        lemma_find_cell_push(s, x, r, c);
    }
    assert forall|i1: int, j1: int| 0 <= i1 < j1 < s.len() implies key_lt(
        #[trigger] s[i1].row,
        s[i1].column,
        #[trigger] s[j1].row,
        s[j1].column,
    ) by {
        assert(s[i1] == cv[i1] && s[j1] == cv[j1]);
    }
    let s1 = s.push(x);
    assert forall|i1: int, j1: int| 0 <= i1 < j1 < s1.len() implies key_lt(
        #[trigger] s1[i1].row,
        s1[i1].column,
        #[trigger] s1[j1].row,
        s1[j1].column,
    ) by {
        assert(s1[i1] == cv[i1] && s1[j1] == cv[j1]);
    }
    lemma_row_keys(s);
    lemma_row_keys(s1);
    assert forall|r: usize| #[trigger] row_keys(s1).contains(r) <==> (row_keys(s).contains(r)
        || r == x.row) by {
        if row_keys(s1).contains(r) {
            let k = choose|k: int| 0 <= k < s1.len() && (#[trigger] s1[k]).row == r;
            if k < s.len() {
                assert(s[k] == s1[k]);
            }
        }
        if row_keys(s).contains(r) {
            let k = choose|k: int| 0 <= k < s.len() && (#[trigger] s[k]).row == r;
            assert(s1[k] == s[k]);
        }
        if r == x.row {
            assert(s1[s.len() as int].row == r);
        }
    }
    assert forall|r: usize, c: usize| !row_keys(s).contains(r) implies #[trigger] cell_value(
        s,
        r,
        c,
    ) == Seq::<char>::empty() by {
        lemma_find_cell_in(s, r, c);
        if cell_keys(s).contains((r, c)) {
            let k = choose|k: int|
                0 <= k < s.len() && find_cell(s, r, c) == Some(#[trigger] s[k]) && s[k].row == r
                    && s[k].column == c;
            assert(s[k].row == r);
        }
    }
}

/// `n` empty cells.
fn empty_columns(n: usize) -> (r: Vec<Vec<char>>)
    ensures
        r.len() == n,
        forall|c: int| 0 <= c < n ==> (#[trigger] r@[c])@ == Seq::<char>::empty(),
{
    let mut r: Vec<Vec<char>> = Vec::new();
    for c in 0..n
        invariant
            r.len() == c,
            forall|k: int| 0 <= k < c ==> (#[trigger] r@[k])@ == Seq::<char>::empty(),
    {
        r.push(Vec::new());
    }
    r
}

/// The table rows of the cells, keyed by row: the header row, and each row a cell is in,
/// with each cell's Markdown in its column.
fn gather_rows(
    cells: &Vec<CellParts>,
    texts: &Vec<Vec<char>>,
    n: usize,
) -> (m: BTreeMap<usize, Vec<Vec<char>>>)
    requires
        keys_sorted(cells_view(cells@)),
        texts.len() == cells.len(),
        forall|i: int|
            0 <= i < texts.len() ==> (#[trigger] texts@[i])@ == cell_text(
                cells_view(cells@)[i].parts,
                false,
            ),
        forall|i: int| 0 <= i < cells.len() ==> (#[trigger] cells_view(cells@)[i]).column < n,
    ensures
        rows_hold(m@, cells_view(cells@), n as nat),
{
    broadcast use vstd::std_specs::btree::group_btree_axioms;

    let ghost cv = cells_view(cells@);
    let mut m: BTreeMap<usize, Vec<Vec<char>>> = BTreeMap::new();
    m.insert(0, empty_columns(n));
    assert(rows_hold(m@, cv.take(0), n as nat)) by {
        assert(cv.take(0) =~= Seq::<CellView>::empty());
        assert(row_keys(cv.take(0)) =~= Seq::<usize>::empty());
        assert(texts_view(m@[0]@) =~= row_values(cv.take(0), 0, n as nat));
    }
    let mut i: usize = 0;
    while i < cells.len()
        invariant
            cv == cells_view(cells@),
            keys_sorted(cv),
            texts.len() == cells.len(),
            forall|k: int|
                0 <= k < texts.len() ==> (#[trigger] texts@[k])@ == cell_text(cv[k].parts, false),
            forall|k: int| 0 <= k < cells.len() ==> (#[trigger] cv[k]).column < n,
            i <= cells.len(),
            rows_hold(m@, cv.take(i as int), n as nat),
        decreases cells.len() - i,
    {
        proof {
            lemma_rows_step(cv, i as int);
        }
        let ghost s = cv.take(i as int);
        let ghost s1 = cv.take(i + 1);
        let ghost before = m@;
        let row = cells[i].row;
        let column = cells[i].column;
        assert(cv[i as int].row == row && cv[i as int].column == column);
        assert(column < n);
        let mut values = match m.remove(&row) {
            Some(v) => v,
            None => empty_columns(n),
        };
        assert(texts_view(values@) =~= row_values(s, row, n as nat)) by {
            if !before.contains_key(row) {
                assert forall|c: int| 0 <= c < n implies #[trigger] texts_view(values@)[c]
                    == row_values(s, row, n as nat)[c] by {
                    assert(cell_value(s, row, c as usize) == Seq::<char>::empty());
                }
            }
        }
        let ghost vals0 = texts_view(values@);
        assert(vals0.len() == values@.len());
        let text = copy_chars(&texts[i]);
        let ghost tx = text@;
        values.set(column, text);
        assert(texts_view(values@) =~= vals0.update(column as int, tx));
        assert(texts_view(values@) =~= row_values(s1, row, n as nat)) by {
            assert forall|c: int| 0 <= c < n implies #[trigger] texts_view(values@)[c]
                == row_values(s1, row, n as nat)[c] by {
                assert(cell_value(s1, row, c as usize) == if c == column {
                    cell_text(cv[i as int].parts, false)
                } else {
                    cell_value(s, row, c as usize)
                });
            }
        }
        m.insert(row, values);
        assert forall|r: usize| #[trigger] m@.contains_key(r) implies texts_view(m@[r]@)
            == row_values(s1, r, n as nat) by {
            if r != row {
                assert(before.contains_key(r));
                assert(texts_view(m@[r]@) == row_values(s, r, n as nat));
                assert(row_values(s, r, n as nat) =~= row_values(s1, r, n as nat)) by {
                    assert forall|c: int| 0 <= c < n implies #[trigger] row_values(
                        s,
                        r,
                        n as nat,
                    )[c] == row_values(s1, r, n as nat)[c] by {
                        assert(cell_value(s1, r, c as usize) == cell_value(s, r, c as usize));
                    }
                }
            }
        }
        assert forall|r: usize| #[trigger] m@.contains_key(r) <==> (r == 0 || row_keys(
            s1,
        ).contains(r)) by {
            if r != row {
                assert(m@.contains_key(r) == before.contains_key(r));
            }
        }
        i += 1;
    }
    assert(cv.take(cells.len() as int) =~= cv);
    m
}

proof fn lemma_increasing_rows(ks: Seq<&usize>)
    requires
        vstd::std_specs::btree::increasing_seq(ks),
    ensures
        rows_increasing(ks.map_values(|k: &usize| *k)),
{
    broadcast use vstd::std_specs::btree::group_btree_axioms;

    let v = ks.map_values(|k: &usize| *k);
    assert forall|i: int, j: int| 0 <= i < j < v.len() implies #[trigger] v[i] < #[trigger] v[j] by {
        assert(vstd::laws_cmp::obeys_cmp::<&usize>());
        assert(vstd::std_specs::cmp::OrdSpec::cmp_spec(&ks[i], &ks[j]) is Less);
        assert(v[i] == *ks[i] && v[j] == *ks[j]);
    }
}

/// The Markdown rows of the map that holds the rows of `cv`, in row order.
fn row_lines(
    m: BTreeMap<usize, Vec<Vec<char>>>,
    table: &Vec<Vec<char>>,
    Ghost(cv): Ghost<Seq<CellView>>,
) -> (r: Vec<Vec<char>>)
    requires
        keys_sorted(cv),
        rows_hold(m@, cv, table.len() as nat),
    ensures
        texts_view(r@) == table_rows(cv).map_values(
            |row: usize| row_line(cv, row, texts_view(table@)),
        ),
{
    broadcast use vstd::std_specs::btree::group_btree_axioms;

    let mut m = m;
    let ghost m0 = m@;
    proof {
        vstd::std_specs::btree::axiom_spec_keys_iter(&m);
    }
    let ghost ks = vstd::std_specs::iter::IteratorSpec::remaining(
        &vstd::std_specs::btree::spec_keys_iter(&m),
    );
    let mut keys: Vec<usize> = Vec::new();
    for k in it: m.keys()
        invariant
            it.seq() == ks,
            keys@ == ks.take(it.index() as int).map_values(|k: &usize| *k),
    {
        keys.push(*k);
        assert(ks.take(it.index() + 1).map_values(|k: &usize| *k) =~= keys@);
    }
    assert(keys@ =~= ks.map_values(|k: &usize| *k));
    let ghost kv = keys@;
    let ghost tr = table_rows(cv);
    let ghost tv = texts_view(table@);
    proof {
        lemma_increasing_rows(ks);
        lemma_table_rows(cv);
        assert(ks.unref() =~= kv);
        assert forall|k: usize| kv.contains(k) <==> tr.contains(k) by {
            assert(kv.to_set().contains(k) == kv.contains(k));
            assert(m0.contains_key(k) <==> tr.contains(k));
        }
        lemma_rows_unique(kv, tr);
        assert forall|j: int| 0 <= j < kv.len() implies #[trigger] m@.contains_key(kv[j]) by {
            assert(kv.contains(kv[j]));
        }
    }
    let mut out: Vec<Vec<char>> = Vec::new();
    let mut i: usize = 0;
    while i < keys.len()
        invariant
            i <= kv.len(),
            kv == keys@,
            kv == tr,
            tr == table_rows(cv),
            tv == texts_view(table@),
            rows_hold(m0, cv, table.len() as nat),
            rows_increasing(kv),
            forall|j: int|
                i <= j < kv.len() ==> #[trigger] m@.contains_key(kv[j]) && m@[kv[j]] == m0[kv[j]],
            texts_view(out@) == tr.take(i as int).map_values(|row: usize| row_line(cv, row, tv)),
        decreases kv.len() - i,
    {
        let row = keys[i];
        assert(m@.contains_key(kv[i as int]));
        let ghost before = m@;
        let values = match m.remove(&row) {
            Some(v) => v,
            None => Vec::new(),
        };
        assert(m@ == before.remove(row));
        assert(values == m0[kv[i as int]]);
        assert(m0.contains_key(row));
        let line = table_row_line(&values, row, table, Ghost(cv));
        let ghost old_out = out@;
        let ghost lw = line@;
        out.push(line);
        assert(texts_view(out@) =~= texts_view(old_out).push(lw));
        assert(tr[i as int] == row);
        assert(texts_view(out@) =~= tr.take(i + 1).map_values(
            |row: usize| row_line(cv, row, tv),
        ));
        assert forall|j: int| i + 1 <= j < kv.len() implies #[trigger] m@.contains_key(kv[j])
            && m@[kv[j]] == m0[kv[j]] by {
            assert(kv[i as int] < kv[j]);
            assert(kv[j] != row);
            assert(before.contains_key(kv[j]));
            assert(before[kv[j]] == m0[kv[j]]);
        }
        i += 1;
    }
    assert(tr.take(tr.len() as int) =~= tr);
    out
}




/// Appends a literal to `out`.
fn push_chars(out: &mut Vec<char>, s: &[char])
    ensures
        final(out)@ == old(out)@ + s@,
{
    let mut i: usize = 0;
    while i < s.len()
        invariant
            i <= s.len(),
            out@ == old(out)@ + s@.take(i as int),
        decreases s.len() - i,
    {
        out.push(s[i]);
        i += 1;
        assert(out@ =~= old(out)@ + s@.take(i as int));
    }
    assert(s@.take(s.len() as int) == s@);
}

proof fn lemma_concat_step(parts: Seq<Seq<char>>, i: int)
    requires
        0 <= i < parts.len(),
    ensures
        concat(parts.take(i + 1)) == concat(parts.take(i)) + parts[i],
{
    assert(parts.take(i + 1).drop_last() =~= parts.take(i));
}

/// The Markdown line of one table row.
fn table_row_line(
    values: &Vec<Vec<char>>,
    row: usize,
    table: &Vec<Vec<char>>,
    Ghost(cv): Ghost<Seq<CellView>>,
) -> (r: Vec<char>)
    requires
        texts_view(values@) == row_values(cv, row, table.len() as nat),
    ensures
        r@ == row_line(cv, row, texts_view(table@)),
{
    let ghost tv = texts_view(table@);
    let mut r: Vec<char> = Vec::new();
    push_chars(&mut r, &['|', ' ']);
    let bar = vec![' ', '|', ' '];
    assert(bar@ =~= seq![' ', '|', ' ']);
    let joined = join_chars(&values, &bar);
    let mut joined = joined;
    r.append(&mut joined);
    push_chars(&mut r, &[' ', '|']);
    assert(['|', ' ']@ =~= seq!['|', ' ']);
    assert([' ', '|']@ =~= seq![' ', '|']);
    if row == 0 {
        let ghost before = r@;
        push_chars(&mut r, &['\n', '|']);
        assert(['\n', '|']@ =~= seq!['\n', '|']);
        let ghost aligned = tv.map_values(|a: Seq<char>| a + seq!['|']);
        for k in 0..table.len()
            invariant
                tv == texts_view(table@),
                aligned == tv.map_values(|a: Seq<char>| a + seq!['|']),
                r@ == before + seq!['\n', '|'] + concat(aligned.take(k as int)),
        {
            proof {
                lemma_concat_step(aligned, k as int);
            }
            push_range(&mut r, &table[k], 0, table[k].len());
            assert(table@[k as int]@.subrange(0, table[k as int].len() as int) == tv[k as int]);
            r.push('|');
            assert(r@ =~= before + seq!['\n', '|'] + concat(aligned.take(k + 1)));
        }
        assert(aligned.take(table.len() as int) == aligned);
        assert(r@ =~= before + (seq!['\n'] + alignment_row(tv)));
    } else {
        assert(r@ =~= r@ + Seq::<char>::empty());
    }
    r
}

/// Copy a selection of table lines as Markdown: a cell alone when only one cell is
/// selected, the visible text when no cell is, and otherwise a Markdown table of `table`
/// with the selected cells in their rows and columns and the header row always present.
pub fn render(lines: &Vec<SelectedLine>, table: &TableLine) -> (r: String)
    requires
        forall|i: int| 0 <= i < lines.len() ==> selected_wf(#[trigger] lines@[i]@),
        columns_fit(selected_view(lines@), table@.table),
    ensures
        r@ == render_spec(selected_view(lines@), table@.table),
{
    let ghost lv = selected_view(lines@);
    let mut map: BTreeMap<(usize, usize), Vec<CellSource>> = BTreeMap::new();
    let ghost mut gathered: Seq<CellView> = Seq::empty();
    assert(map_holds(map@, gathered)) by {
        assert(cell_keys(gathered) =~= Seq::<(usize, usize)>::empty());
    }
    for li in 0..lines.len()
        invariant
            lv == selected_view(lines@),
            forall|i: int| 0 <= i < lines.len() ==> selected_wf(#[trigger] lines@[i]@),
            gathered == add_lines(lv.take(li as int)),
            cells_wf(gathered),
            keys_sorted(gathered),
            map_holds(map@, gathered),
    {
        let line = &lines[li];
        assert(lv.take(li + 1).drop_last() =~= lv.take(li as int));
        assert(lv[li as int] == line@);
        assert(selected_wf(lines@[li as int]@));
        match &line.source.copy {
            Some(copy) => match &copy.table {
                Some(t) => {
                    let ghost base = gathered;
                    let ghost tv = t@;
                    for fi in 0..t.fragments.len()
                        invariant
                            tv == t@,
                            fragments_wf(tv.fragments),
                            gathered == add_fragments(base, line@, tv.fragments.take(fi as int)),
                            cells_wf(gathered),
                            keys_sorted(gathered),
                            map_holds(map@, gathered),
                    {
                        let f = &t.fragments[fi];
                        assert(tv.fragments.take(fi + 1).drop_last() =~= tv.fragments.take(
                            fi as int,
                        ));
                        assert(fragment_wf(tv.fragments[fi as int]));
                        match clip(line, f) {
                            Some(p) => {
                                let ghost pv = p@;
                                proof {
                                    lemma_upsert_wf(gathered, f.row, f.column, pv);
                                    crate::table_laws::lemma_upsert_sorted(
                                        gathered,
                                        f.row,
                                        f.column,
                                        pv,
                                    );
                                }
                                upsert_map(&mut map, f.row, f.column, p, Ghost(gathered));
                                proof {
                                    gathered = upsert(gathered, f.row, f.column, pv);
                                }
                            },
                            None => {},
                        }
                    }
                    assert(tv.fragments.take(t.fragments.len() as int) == tv.fragments);
                },
                None => {},
            },
            None => {},
        }
    }
    let cells = cells_in_order(map, Ghost(gathered));
    assert(lv.take(lines.len() as int) == lv);
    let ghost cv = cells_view(cells@);
    let mut separator = false;
    for i in 0..lines.len()
        invariant
            lv == selected_view(lines@),
            separator == exists|k: int| 0 <= k < i && is_separator(#[trigger] lv[k]),
    {
        let line = &lines[i];
        let here = line.start < line.end && match &line.source.copy {
            Some(copy) => match &copy.table {
                Some(t) => t.fragments.len() == 0,
                None => false,
            },
            None => false,
        };
        assert(lv[i as int] == line@);
        assert(here == is_separator(lv[i as int]));
        separator = separator || here;
    }
    let standalone = cells.len() == 1 && !separator;
    assert(standalone == is_standalone(lv));
    let mut texts: Vec<Vec<char>> = Vec::new();
    for ci in 0..cells.len()
        invariant
            cv == cells_view(cells@),
            cells_wf(cv),
            texts.len() == ci,
            forall|k: int|
                0 <= k < ci ==> (#[trigger] texts@[k])@ == cell_text(cv[k].parts, standalone),
    {
        assert(parts_wf(cv[ci as int].parts));
        texts.push(cell_markdown(&cells[ci].parts, standalone));
    }
    if standalone {
        return string_of(&texts[0]);
    }
    if cells.len() == 0 {
        let mut escaped: Vec<Vec<char>> = Vec::new();
        for i in 0..lines.len()
            invariant
                lv == selected_view(lines@),
                forall|k: int| 0 <= k < lines.len() ==> selected_wf(#[trigger] lines@[k]@),
                escaped.len() == i,
                forall|k: int|
                    0 <= k < i ==> (#[trigger] escaped@[k])@ == escape_spec(
                        lv[k].source.text.subrange(lv[k].start as int, lv[k].end as int),
                    ),
        {
            assert(selected_wf(lines@[i as int]@));
            escaped.push(escape(&lines[i].source.text, lines[i].start, lines[i].end));
        }
        assert(texts_view(escaped@) =~= lv.map_values(
            |l: SelectedLineView| escape_spec(l.source.text.subrange(l.start as int, l.end as int)),
        ));
        let newline = vec!['\n'];
        assert(newline@ =~= seq!['\n']);
        let out = join_chars(&escaped, &newline);
        return string_of(&out);
    }
    proof {
        crate::table_laws::law_cells_sorted(lv);
    }
    assert forall|i: int| 0 <= i < cells.len() implies (#[trigger] cells_view(cells@)[i]).column
        < table.table.len() by {
        assert(cv[i] == cells_view(cells@)[i]);
    }
    let rows = gather_rows(&cells, &texts, table.table.len());
    let ghost tv = texts_view(table.table@);
    let row_texts = row_lines(rows, &table.table, Ghost(cv));
    assert(texts_view(row_texts@) =~= table_rows(cv).map_values(|r: usize| row_line(cv, r, tv)));
    let newline = vec!['\n'];
    assert(newline@ =~= seq!['\n']);
    let out = join_chars(&row_texts, &newline);
    string_of(&out)
}

} // verus!
