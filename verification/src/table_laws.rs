//! What the table copy keeps true across its operations.

use vstd::prelude::*;
use crate::markdown_copy::{
    CellSourceView, CellView, FragmentView, LogicalLineSourceView, SelectedLineView, TableLineView,
    add_fragments, add_lines, append_spec, clip_selected, first_match, fragment_wf, fragments_wf,
    key_lt, merge, merge_from, parts_match, project_fragment, project_fragments, source_table,
    upsert, widen, cell_text, part_text,
};
use crate::text::join;

verus! {

// ---------------------------------------------------------------------------------------
// Appending keeps fragments well formed
// ---------------------------------------------------------------------------------------

proof fn lemma_project_wf(src: LogicalLineSourceView, fs: Seq<FragmentView>, offset: usize)
    requires
        fragments_wf(fs),
        src.start <= src.end,
        offset + src.prefix_len + src.end <= usize::MAX,
    ensures
        fragments_wf(project_fragments(src, fs, offset)),
    decreases fs.len(),
{
    if fs.len() > 0 {
        let rest = fs.drop_last();
        assert forall|i: int| 0 <= i < rest.len() implies fragment_wf(#[trigger] rest[i]) by {
            assert(rest[i] == fs[i]);
        }
        lemma_project_wf(src, rest, offset);
        assert(fragment_wf(fs.last()));
        let prev = project_fragments(src, rest, offset);
        let all = project_fragments(src, fs, offset);
        match project_fragment(src, fs.last(), offset) {
            Some(f) => {
                assert(all == prev + seq![f]);
                assert forall|i: int| 0 <= i < all.len() implies fragment_wf(#[trigger] all[i]) by {
                    if i < prev.len() {
                        assert(all[i] == prev[i]);
                    }
                }
            },
            None => {
                assert(all =~= prev);
            },
        }
    }
}

/// Appending a displayed line to a composed row keeps every fragment well formed: each
/// shows exactly as many characters as its cell range holds, and the range lies in its
/// cell line.
pub proof fn law_append_keeps_fragments_well_formed(
    output: Option<TableLineView>,
    src: LogicalLineSourceView,
    offset: usize,
)
    requires
        match output {
            Some(o) => fragments_wf(o.fragments),
            None => true,
        },
        src.start <= src.end,
        offset + src.prefix_len + src.end <= usize::MAX,
        match source_table(src) {
            Some(t) => fragments_wf(t.fragments),
            None => true,
        },
    ensures
        match append_spec(output, src, offset) {
            Some(o) => fragments_wf(o.fragments),
            None => true,
        },
{
    if let Some(t) = source_table(src) {
        lemma_project_wf(src, t.fragments, offset);
        let base: Seq<FragmentView> = match output {
            Some(o) => o.fragments,
            None => Seq::empty(),
        };
        let added = project_fragments(src, t.fragments, offset);
        let all = base + added;
        assert forall|i: int| 0 <= i < all.len() implies fragment_wf(#[trigger] all[i]) by {
            if i < base.len() {
                assert(all[i] == base[i]);
            } else {
                assert(all[i] == added[i - base.len()]);
            }
        }
    }
}

/// The characters a fragment covers in `row`, the text it is drawn in, are exactly the
/// characters of its cell range.
pub open spec fn fragment_shows(row: Seq<char>, f: FragmentView) -> bool {
    &&& f.output_start <= f.output_end <= row.len()
    &&& f.source.start <= f.source.end <= f.source.text.len()
    &&& row.subrange(f.output_start as int, f.output_end as int) == f.source.text.subrange(
        f.source.start as int,
        f.source.end as int,
    )
}

/// `src`'s selected text is drawn in `row` from column `offset + src.prefix_len` on.
pub open spec fn line_drawn_at(row: Seq<char>, src: LogicalLineSourceView, offset: usize) -> bool {
    &&& src.start <= src.end <= src.text.len()
    &&& offset + src.prefix_len + (src.end - src.start) <= row.len()
    &&& row.subrange(
        offset + src.prefix_len,
        offset + src.prefix_len + (src.end - src.start),
    ) == src.text.subrange(src.start as int, src.end as int)
}

proof fn lemma_project_shows(
    row: Seq<char>,
    src: LogicalLineSourceView,
    fs: Seq<FragmentView>,
    offset: usize,
)
    requires
        fragments_wf(fs),
        line_drawn_at(row, src, offset),
        forall|i: int| 0 <= i < fs.len() ==> fragment_shows(src.text, #[trigger] fs[i]),
        offset + src.prefix_len + src.end <= usize::MAX,
    ensures
        forall|i: int|
            0 <= i < project_fragments(src, fs, offset).len() ==> fragment_shows(
                row,
                #[trigger] project_fragments(src, fs, offset)[i],
            ),
    decreases fs.len(),
{
    if fs.len() > 0 {
        let rest = fs.drop_last();
        assert forall|i: int| 0 <= i < rest.len() implies fragment_wf(#[trigger] rest[i]) by {
            assert(rest[i] == fs[i]);
        }
        assert forall|i: int| 0 <= i < rest.len() implies fragment_shows(
            src.text,
            #[trigger] rest[i],
        ) by {
            assert(rest[i] == fs[i]);
        }
        lemma_project_shows(row, src, rest, offset);
        let f = fs.last();
        assert(fragment_wf(fs[fs.len() - 1]));
        assert(fragment_shows(src.text, fs[fs.len() - 1]));
        let prev = project_fragments(src, rest, offset);
        let all = project_fragments(src, fs, offset);
        match project_fragment(src, f, offset) {
            Some(g) => {
                assert(all == prev + seq![g]);
                let start: int = if src.start >= f.output_start {
                    src.start as int
                } else {
                    f.output_start as int
                };
                let end: int = if src.end <= f.output_end {
                    src.end as int
                } else {
                    f.output_end as int
                };
                let base: int = offset + src.prefix_len;
                let shown = row.subrange(g.output_start as int, g.output_end as int);
                let cell = g.source.text.subrange(g.source.start as int, g.source.end as int);
                assert forall|k: int| 0 <= k < end - start implies #[trigger] shown[k]
                    == cell[k] by {
                    assert(row[base + (start - src.start + k)] == src.text.subrange(
                        src.start as int,
                        src.end as int,
                    )[start - src.start + k]);
                    assert(src.text[start + k] == f.source.text.subrange(
                        f.source.start as int,
                        f.source.end as int,
                    )[start + k - f.output_start]);
                    assert(src.text.subrange(f.output_start as int, f.output_end as int)[start + k
                        - f.output_start] == src.text[start + k]);
                }
                assert(shown =~= cell);
                assert forall|i: int| 0 <= i < all.len() implies fragment_shows(
                    row,
                    #[trigger] all[i],
                ) by {
                    if i < prev.len() {
                        assert(all[i] == prev[i]);
                    } else {
                        assert(all[i] == g);
                    }
                }
            },
            None => {
                assert(all =~= prev);
            },
        }
    }
}

/// A projected fragment shows its cell's text: when a displayed line is drawn into a row
/// at its place, and each of the line's fragments shows its cell's text in the line, then
/// every fragment `append` adds covers, in the row, exactly its cell's characters.
pub proof fn law_append_shows_cell_text(
    row: Seq<char>,
    output: Option<TableLineView>,
    src: LogicalLineSourceView,
    offset: usize,
)
    requires
        line_drawn_at(row, src, offset),
        offset + src.prefix_len + src.end <= usize::MAX,
        match source_table(src) {
            Some(t) => fragments_wf(t.fragments) && forall|i: int|
                0 <= i < t.fragments.len() ==> fragment_shows(src.text, #[trigger] t.fragments[i]),
            None => true,
        },
    ensures
        match (source_table(src), append_spec(output, src, offset)) {
            (Some(t), Some(o)) => {
                let base = match output {
                    Some(b) => b.fragments.len(),
                    None => 0,
                };
                forall|i: int|
                    base <= i < o.fragments.len() ==> fragment_shows(row, #[trigger] o.fragments[i])
            },
            _ => true,
        },
{
    if let Some(t) = source_table(src) {
        lemma_project_shows(row, src, t.fragments, offset);
        let base: Seq<FragmentView> = match output {
            Some(o) => o.fragments,
            None => Seq::empty(),
        };
        let added = project_fragments(src, t.fragments, offset);
        let all = base + added;
        assert forall|i: int| base.len() <= i < all.len() implies fragment_shows(
            row,
            #[trigger] all[i],
        ) by {
            assert(all[i] == added[i - base.len()]);
        }
    }
}

proof fn lemma_projected_contains(src: LogicalLineSourceView, fs: Seq<FragmentView>, offset: usize, i: int)
    requires
        0 <= i < fs.len(),
        project_fragment(src, fs[i], offset) is Some,
    ensures
        project_fragments(src, fs, offset).contains(project_fragment(src, fs[i], offset)->Some_0),
    decreases fs.len(),
{
    let prev = project_fragments(src, fs.drop_last(), offset);
    let all = project_fragments(src, fs, offset);
    if i == fs.len() - 1 {
        let g = project_fragment(src, fs[i], offset)->Some_0;
        assert(all == prev + seq![g]);
        assert(all[prev.len() as int] == g);
    } else {
        assert(fs.drop_last()[i] == fs[i]);
        lemma_projected_contains(src, fs.drop_last(), offset, i);
        let g = project_fragment(src, fs[i], offset)->Some_0;
        let k = choose|k: int| 0 <= k < prev.len() && prev[k] == g;
        match project_fragment(src, fs.last(), offset) {
            Some(h) => {
                assert(all == prev + seq![h]);
                assert(all[k] == g);
            },
            None => {
                assert(all =~= prev);
            },
        }
    }
}

/// A displayed line keeps every cell it shows whole: each fragment of its cells whose
/// output lies inside the line's shown range, an empty cell's empty fragment included, is
/// appended whole, shifted to the line's place in the composed row, and what the row held
/// before stays in front.
pub proof fn law_append_keeps_shown_cells(
    output: Option<TableLineView>,
    src: LogicalLineSourceView,
    offset: usize,
    i: int,
)
    requires
        source_table(src) is Some,
        ({
            let fs = source_table(src)->Some_0.fragments;
            &&& 0 <= i < fs.len()
            &&& fragment_wf(fs[i])
            &&& src.start <= fs[i].output_start
            &&& fs[i].output_end <= src.end
            &&& (fs[i].output_start < fs[i].output_end || fs[i].source.text.len() == 0)
        }),
        offset + src.prefix_len + src.end <= usize::MAX,
    ensures
        ({
            let f = source_table(src)->Some_0.fragments[i];
            let o = append_spec(output, src, offset);
            &&& o is Some
            &&& o->Some_0.fragments.contains(
                FragmentView {
                    output_start: (offset + src.prefix_len + (f.output_start - src.start)) as usize,
                    output_end: (offset + src.prefix_len + (f.output_end - src.start)) as usize,
                    row: f.row,
                    column: f.column,
                    source: f.source,
                },
            )
            &&& output matches Some(b) ==> o->Some_0.fragments.take(b.fragments.len() as int)
                == b.fragments
        }),
{
    let t = source_table(src)->Some_0;
    let f = t.fragments[i];
    let g = project_fragment(src, f, offset)->Some_0;
    assert(g.source =~= f.source) by {
        assert(g.source.start == f.source.start);
        assert(g.source.end == f.source.end);
    }
    lemma_projected_contains(src, t.fragments, offset, i);
    let base: Seq<FragmentView> = match output {
        Some(o) => o.fragments,
        None => Seq::empty(),
    };
    let added = project_fragments(src, t.fragments, offset);
    let k = choose|k: int| 0 <= k < added.len() && added[k] == g;
    assert((base + added)[base.len() + k] == g);
    assert((base + added).take(base.len() as int) =~= base);
}

/// A copied cell's Markdown is its parts' Markdown with exactly one space between each two:
/// adding a part to a cell adds one space and that part's Markdown.
pub proof fn law_cell_parts_joined_by_one_space(
    parts: Seq<CellSourceView>,
    p: CellSourceView,
    standalone: bool,
)
    ensures
        cell_text(seq![p], standalone) == part_text(p, standalone),
        parts.len() > 0 ==> cell_text(parts.push(p), standalone) == cell_text(parts, standalone)
            + seq![' '] + part_text(p, standalone),
{
    let f = |q: CellSourceView| part_text(q, standalone);
    assert(seq![p].map_values(f) =~= seq![part_text(p, standalone)]);
    if parts.len() > 0 {
        let all = parts.push(p).map_values(f);
        assert(all.drop_last() =~= parts.map_values(f));
        assert(all.last() == part_text(p, standalone));
    }
}

// ---------------------------------------------------------------------------------------
// Cells stay in key order
// ---------------------------------------------------------------------------------------

/// The cells' keys increase strictly: each (row, column) occurs once, in order.
pub open spec fn keys_sorted(cells: Seq<CellView>) -> bool {
    forall|i: int, j: int|
        0 <= i < j < cells.len() ==> key_lt(
            #[trigger] cells[i].row,
            cells[i].column,
            #[trigger] cells[j].row,
            cells[j].column,
        )
}

proof fn lemma_upsert_keys(cells: Seq<CellView>, row: usize, column: usize, p: CellSourceView)
    ensures
        upsert(cells, row, column, p).len() > 0,
        ({
            let r = upsert(cells, row, column, p);
            forall|k: int|
                0 <= k < r.len() ==> ((#[trigger] r[k]).row == row && r[k].column == column)
                    || exists|m: int|
                    0 <= m < cells.len() && cells[m].row == r[k].row && cells[m].column
                        == r[k].column
        }),
        cells.len() > 0 ==> {
            let r = upsert(cells, row, column, p);
            (r[0].row == row && r[0].column == column) || (r[0].row == cells[0].row
                && r[0].column == cells[0].column)
        },
    decreases cells.len(),
{
    let r = upsert(cells, row, column, p);
    if cells.len() > 0 {
        let c = cells[0];
        if c.row == row && c.column == column {
            assert forall|k: int|
                0 <= k < r.len() implies ((#[trigger] r[k]).row == row && r[k].column == column)
                || exists|m: int|
                0 <= m < cells.len() && cells[m].row == r[k].row && cells[m].column
                    == r[k].column by {
                if k > 0 {
                    assert(r[k] == cells[k]);
                }
            }
        } else if key_lt(row, column, c.row, c.column) {
            assert forall|k: int|
                0 <= k < r.len() implies ((#[trigger] r[k]).row == row && r[k].column == column)
                || exists|m: int|
                0 <= m < cells.len() && cells[m].row == r[k].row && cells[m].column
                    == r[k].column by {
                if k > 0 {
                    assert(r[k] == cells[k - 1]);
                }
            }
        } else {
            let rest = cells.drop_first();
            lemma_upsert_keys(rest, row, column, p);
            let u = upsert(rest, row, column, p);
            assert forall|k: int|
                0 <= k < r.len() implies ((#[trigger] r[k]).row == row && r[k].column == column)
                || exists|m: int|
                0 <= m < cells.len() && cells[m].row == r[k].row && cells[m].column
                    == r[k].column by {
                if k == 0 {
                    assert(r[0] == cells[0]);
                } else {
                    assert(r[k] == u[k - 1]);
                    if !(u[k - 1].row == row && u[k - 1].column == column) {
                        let m = choose|m: int|
                            0 <= m < rest.len() && rest[m].row == u[k - 1].row && rest[m].column
                                == u[k - 1].column;
                        assert(cells[m + 1] == rest[m]);
                    }
                }
            }
        }
    }
}

pub(crate) proof fn lemma_upsert_sorted(cells: Seq<CellView>, row: usize, column: usize, p: CellSourceView)
    requires
        keys_sorted(cells),
    ensures
        keys_sorted(upsert(cells, row, column, p)),
    decreases cells.len(),
{
    let r = upsert(cells, row, column, p);
    if cells.len() > 0 {
        let c = cells[0];
        if c.row == row && c.column == column {
            assert forall|i: int, j: int| 0 <= i < j < r.len() implies key_lt(
                #[trigger] r[i].row,
                r[i].column,
                #[trigger] r[j].row,
                r[j].column,
            ) by {
                assert(key_lt(cells[i].row, cells[i].column, cells[j].row, cells[j].column));
            }
        } else if key_lt(row, column, c.row, c.column) {
            assert forall|i: int, j: int| 0 <= i < j < r.len() implies key_lt(
                #[trigger] r[i].row,
                r[i].column,
                #[trigger] r[j].row,
                r[j].column,
            ) by {
                if i > 0 {
                    assert(key_lt(
                        cells[i - 1].row,
                        cells[i - 1].column,
                        cells[j - 1].row,
                        cells[j - 1].column,
                    ));
                } else if j > 1 {
                    assert(key_lt(cells[0].row, cells[0].column, cells[j - 1].row, cells[j - 1].column));
                }
            }
        } else {
            let rest = cells.drop_first();
            assert(keys_sorted(rest)) by {
                assert forall|i: int, j: int| 0 <= i < j < rest.len() implies key_lt(
                    #[trigger] rest[i].row,
                    rest[i].column,
                    #[trigger] rest[j].row,
                    rest[j].column,
                ) by {
                    assert(rest[i] == cells[i + 1]);
                    assert(rest[j] == cells[j + 1]);
                }
            }
            lemma_upsert_sorted(rest, row, column, p);
            lemma_upsert_keys(rest, row, column, p);
            let u = upsert(rest, row, column, p);
            assert forall|i: int, j: int| 0 <= i < j < r.len() implies key_lt(
                #[trigger] r[i].row,
                r[i].column,
                #[trigger] r[j].row,
                r[j].column,
            ) by {
                assert(r[j] == u[j - 1]);
                if i == 0 {
                    assert(r[0] == c);
                    if u[j - 1].row == row && u[j - 1].column == column {
                    } else {
                        let m = choose|m: int|
                            0 <= m < rest.len() && rest[m].row == u[j - 1].row && rest[m].column
                                == u[j - 1].column;
                        assert(rest[m] == cells[m + 1]);
                        assert(key_lt(cells[0].row, cells[0].column, cells[m + 1].row, cells[m + 1].column));
                    }
                } else {
                    assert(r[i] == u[i - 1]);
                }
            }
        }
    }
}

proof fn lemma_add_fragments_sorted(cells: Seq<CellView>, l: SelectedLineView, fs: Seq<FragmentView>)
    requires
        keys_sorted(cells),
    ensures
        keys_sorted(add_fragments(cells, l, fs)),
    decreases fs.len(),
{
    if fs.len() > 0 {
        lemma_add_fragments_sorted(cells, l, fs.drop_last());
        let c = add_fragments(cells, l, fs.drop_last());
        let f = fs.last();
        if let Some(p) = clip_selected(l, f) {
            lemma_upsert_sorted(c, f.row, f.column, p);
        }
    }
}

/// The cells that a selection gathers are in strictly increasing (row, column) order, so
/// every cell occurs once and rows are written top to bottom.
pub proof fn law_cells_sorted(lines: Seq<SelectedLineView>)
    ensures
        keys_sorted(add_lines(lines)),
    decreases lines.len(),
{
    if lines.len() > 0 {
        law_cells_sorted(lines.drop_last());
        if let Some(t) = source_table(lines.last().source) {
            lemma_add_fragments_sorted(add_lines(lines.drop_last()), lines.last(), t.fragments);
        }
    }
}

// ---------------------------------------------------------------------------------------
// Parts of one cell line are reconciled
// ---------------------------------------------------------------------------------------

/// No two parts of a cell are pieces of one cell line that overlap, touch, or are
/// separated by white space only.
pub open spec fn parts_reconciled(parts: Seq<CellSourceView>) -> bool {
    forall|i: int, j: int|
        0 <= i < parts.len() && 0 <= j < parts.len() && i != j ==> !parts_match(
            #[trigger] parts[i],
            #[trigger] parts[j],
        )
}

pub open spec fn cells_reconciled(cells: Seq<CellView>) -> bool {
    forall|i: int| 0 <= i < cells.len() ==> parts_reconciled(#[trigger] cells[i].parts)
}

proof fn lemma_match_symmetric(a: CellSourceView, b: CellSourceView)
    ensures
        parts_match(a, b) == parts_match(b, a),
{
}

proof fn lemma_no_match_after(parts: Seq<CellSourceView>, p: CellSourceView, i: int)
    requires
        0 <= i,
        first_match(parts, p, i) == -1,
    ensures
        forall|k: int| i <= k < parts.len() ==> !parts_match(#[trigger] parts[k], p),
    decreases parts.len() - i,
{
    if i < parts.len() {
        lemma_no_match_after(parts, p, i + 1);
    }
}

proof fn lemma_first_match_found(parts: Seq<CellSourceView>, p: CellSourceView, i: int)
    requires
        0 <= i,
    ensures
        first_match(parts, p, i) == -1 || (i <= first_match(parts, p, i) < parts.len()),
    decreases parts.len() - i,
{
    if i < parts.len() && !parts_match(parts[i], p) {
        lemma_first_match_found(parts, p, i + 1);
    }
}

proof fn lemma_merge_reconciled(parts: Seq<CellSourceView>, p: CellSourceView, at: int)
    requires
        parts_reconciled(parts),
    ensures
        parts_reconciled(merge_from(parts, p, at)),
    decreases parts.len(),
{
    lemma_first_match_found(parts, p, 0);
    let i = first_match(parts, p, 0);
    if 0 <= i < parts.len() {
        let rest = parts.remove(i);
        assert forall|a: int, b: int|
            0 <= a < rest.len() && 0 <= b < rest.len() && a != b implies !parts_match(
            #[trigger] rest[a],
            #[trigger] rest[b],
        ) by {
            let a2 = if a < i { a } else { a + 1 };
            let b2 = if b < i { b } else { b + 1 };
            assert(rest[a] == parts[a2]);
            assert(rest[b] == parts[b2]);
        }
        lemma_merge_reconciled(rest, widen(parts[i], p), if at < i { at } else { i });
    } else {
        lemma_no_match_after(parts, p, 0);
        let j = if at < 0 {
            0
        } else if at < parts.len() {
            at
        } else {
            parts.len() as int
        };
        let r = parts.insert(j, p);
        assert forall|a: int, b: int|
            0 <= a < r.len() && 0 <= b < r.len() && a != b implies !parts_match(
            #[trigger] r[a],
            #[trigger] r[b],
        ) by {
            if a == j {
                let b2 = if b < j { b } else { b - 1 };
                assert(r[b] == parts[b2]);
                lemma_match_symmetric(parts[b2], p);
            } else if b == j {
                let a2 = if a < j { a } else { a - 1 };
                assert(r[a] == parts[a2]);
            } else {
                let a2 = if a < j { a } else { a - 1 };
                let b2 = if b < j { b } else { b - 1 };
                assert(r[a] == parts[a2]);
                assert(r[b] == parts[b2]);
            }
        }
    }
}

proof fn lemma_upsert_reconciled(cells: Seq<CellView>, row: usize, column: usize, p: CellSourceView)
    requires
        cells_reconciled(cells),
    ensures
        cells_reconciled(upsert(cells, row, column, p)),
    decreases cells.len(),
{
    let r = upsert(cells, row, column, p);
    if cells.len() == 0 {
        assert(parts_reconciled(r[0].parts));
    } else {
        let c = cells[0];
        if c.row == row && c.column == column {
            assert(parts_reconciled(c.parts));
            lemma_merge_reconciled(c.parts, p, c.parts.len() as int);
            assert forall|k: int| 0 <= k < r.len() implies parts_reconciled(#[trigger] r[k].parts) by {
                if k > 0 {
                    assert(r[k] == cells[k]);
                }
            }
        } else if key_lt(row, column, c.row, c.column) {
            assert forall|k: int| 0 <= k < r.len() implies parts_reconciled(#[trigger] r[k].parts) by {
                if k > 0 {
                    assert(r[k] == cells[k - 1]);
                }
            }
        } else {
            let rest = cells.drop_first();
            assert forall|k: int| 0 <= k < rest.len() implies parts_reconciled(
                #[trigger] rest[k].parts,
            ) by {
                assert(rest[k] == cells[k + 1]);
            }
            lemma_upsert_reconciled(rest, row, column, p);
            let u = upsert(rest, row, column, p);
            assert forall|k: int| 0 <= k < r.len() implies parts_reconciled(#[trigger] r[k].parts) by {
                if k > 0 {
                    assert(r[k] == u[k - 1]);
                }
            }
        }
    }
}

proof fn lemma_add_fragments_reconciled(
    cells: Seq<CellView>,
    l: SelectedLineView,
    fs: Seq<FragmentView>,
)
    requires
        cells_reconciled(cells),
    ensures
        cells_reconciled(add_fragments(cells, l, fs)),
    decreases fs.len(),
{
    if fs.len() > 0 {
        lemma_add_fragments_reconciled(cells, l, fs.drop_last());
        let c = add_fragments(cells, l, fs.drop_last());
        let f = fs.last();
        if let Some(p) = clip_selected(l, f) {
            lemma_upsert_reconciled(c, f.row, f.column, p);
        }
    }
}

/// Within every copied cell, pieces of one cell line that overlap, touch, or are
/// separated only by white space (a repeated record label, or a line broken by
/// wrapping) have been joined into one part.
pub proof fn law_cell_lines_reconciled(lines: Seq<SelectedLineView>)
    ensures
        cells_reconciled(add_lines(lines)),
    decreases lines.len(),
{
    if lines.len() > 0 {
        law_cell_lines_reconciled(lines.drop_last());
        if let Some(t) = source_table(lines.last().source) {
            lemma_add_fragments_reconciled(
                add_lines(lines.drop_last()),
                lines.last(),
                t.fragments,
            );
        }
    }
}

// ---------------------------------------------------------------------------------------
// Only selected cells are copied
// ---------------------------------------------------------------------------------------

/// Line `l` selects part of its `j`-th fragment, which shows cell (`row`, `column`).
pub open spec fn fragment_selected(l: SelectedLineView, j: int, row: usize, column: usize) -> bool {
    match source_table(l.source) {
        Some(t) => 0 <= j < t.fragments.len() && t.fragments[j].row == row && t.fragments[j].column
            == column && clip_selected(l, t.fragments[j]) is Some,
        None => false,
    }
}

/// Some line of the selection selects part of cell (`row`, `column`).
pub open spec fn cell_selected(lines: Seq<SelectedLineView>, row: usize, column: usize) -> bool {
    exists|i: int, j: int| 0 <= i < lines.len() && #[trigger] fragment_selected(lines[i], j, row, column)
}

/// Every gathered cell is selected by some line.
pub open spec fn cells_selected(cells: Seq<CellView>, lines: Seq<SelectedLineView>) -> bool {
    forall|k: int| 0 <= k < cells.len() ==> cell_selected(lines, #[trigger] cells[k].row, cells[k].column)
}

proof fn lemma_cell_selected_grows(lines: Seq<SelectedLineView>, n: int, row: usize, column: usize)
    requires
        0 <= n <= lines.len(),
        cell_selected(lines.take(n), row, column),
    ensures
        cell_selected(lines, row, column),
{
    let (i, j) = choose|i: int, j: int|
        0 <= i < lines.take(n).len() && #[trigger] fragment_selected(lines.take(n)[i], j, row, column);
    assert(lines.take(n)[i] == lines[i]);
    assert(fragment_selected(lines[i], j, row, column));
}

proof fn lemma_add_fragments_selected(
    cells: Seq<CellView>,
    lines: Seq<SelectedLineView>,
    li: int,
    fs: Seq<FragmentView>,
    n: int,
)
    requires
        0 <= li < lines.len(),
        source_table(lines[li].source) matches Some(t) && 0 <= n <= t.fragments.len() && fs
            == t.fragments.take(n),
        cells_selected(cells, lines),
    ensures
        cells_selected(add_fragments(cells, lines[li], fs), lines),
    decreases n,
{
    let t = source_table(lines[li].source)->Some_0;
    if n > 0 {
        assert(fs.drop_last() =~= t.fragments.take(n - 1));
        lemma_add_fragments_selected(cells, lines, li, fs.drop_last(), n - 1);
        let c = add_fragments(cells, lines[li], fs.drop_last());
        let f = fs.last();
        assert(f == t.fragments[n - 1]);
        if let Some(p) = clip_selected(lines[li], f) {
            lemma_upsert_keys(c, f.row, f.column, p);
            let r = upsert(c, f.row, f.column, p);
            assert forall|k: int| 0 <= k < r.len() implies cell_selected(
                lines,
                #[trigger] r[k].row,
                r[k].column,
            ) by {
                if r[k].row == f.row && r[k].column == f.column {
                    assert(fragment_selected(lines[li], n - 1, f.row, f.column));
                } else {
                    let m = choose|m: int|
                        0 <= m < c.len() && c[m].row == r[k].row && c[m].column == r[k].column;
                    assert(cell_selected(lines, c[m].row, c[m].column));
                }
            }
        }
    }
}

/// A cell appears in the copy only when some selected line selects part of it:
/// unselected cells never supply text.
pub proof fn law_only_selected_cells(lines: Seq<SelectedLineView>)
    ensures
        cells_selected(add_lines(lines), lines),
    decreases lines.len(),
{
    if lines.len() > 0 {
        let prev = lines.drop_last();
        law_only_selected_cells(prev);
        let c = add_lines(prev);
        assert forall|k: int| 0 <= k < c.len() implies cell_selected(
            lines,
            #[trigger] c[k].row,
            c[k].column,
        ) by {
            assert(prev == lines.take(lines.len() - 1));
            lemma_cell_selected_grows(lines, lines.len() - 1, c[k].row, c[k].column);
        }
        if let Some(t) = source_table(lines.last().source) {
            assert(t.fragments.take(t.fragments.len() as int) == t.fragments);
            lemma_add_fragments_selected(
                c,
                lines,
                lines.len() - 1,
                t.fragments,
                t.fragments.len() as int,
            );
        }
    }
}

} // verus!
