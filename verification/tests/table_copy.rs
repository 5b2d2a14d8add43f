use codex_tui::markdown_copy::{
    annotate_cell, append, attach, escape, render, CellCopy, CellSource, CopyLine, Fragment,
    HyperlinkLine, LogicalLineSource, SelectedLine, TableLine,
};
use codex_tui::text::{Line, Span, Style};

fn chars(s: &str) -> Vec<char> {
    s.chars().collect()
}

fn alignments(n: usize) -> Vec<Vec<char>> {
    (0..n).map(|_| chars("---")).collect()
}

fn cell(id: usize, text: &str, copy: Option<CellCopy>) -> CellSource {
    CellSource { id, text: chars(text), start: 0, end: text.chars().count(), copy }
}

/// A composed row `text` showing `cells` (row, column, cell text, start in the row).
fn row_line(text: &str, n: usize, cells: &[(usize, usize, &str, usize)]) -> LogicalLineSource {
    let fragments = cells
        .iter()
        .map(|(row, column, cell_text, at)| Fragment {
            output_start: *at,
            output_end: at + cell_text.chars().count(),
            row: *row,
            column: *column,
            source: cell(0, cell_text, None),
        })
        .collect();
    LogicalLineSource {
        text: chars(text),
        start: 0,
        end: text.chars().count(),
        prefix_len: 0,
        copy: Some(CopyLine { table: Some(TableLine { table: alignments(n), fragments }) }),
    }
}

fn select_all(source: LogicalLineSource) -> SelectedLine {
    let end = source.text.len();
    SelectedLine { source, start: 0, end }
}

#[test]
fn whole_table_selection_copies_a_markdown_table() {
    let header = row_line("A  B", 2, &[(0, 0, "A", 0), (0, 1, "B", 3)]);
    let body = row_line("x  y", 2, &[(1, 0, "x", 0), (1, 1, "y", 3)]);
    let lines = vec![select_all(header), select_all(body)];
    let table = TableLine::empty(&alignments(2));
    assert_eq!(render(&lines, &table), "| A | B |\n|---|---|\n| x | y |");
}

#[test]
fn selection_inside_one_cell_copies_that_cell_alone() {
    let copy = CellCopy { marker: chars("**"), code: false, table_cell: false };
    let mut header = row_line("alpha  beta", 2, &[(0, 0, "alpha", 0), (0, 1, "beta", 7)]);
    if let Some(CopyLine { table: Some(t) }) = &mut header.copy {
        t.fragments[0].source.copy = Some(copy);
    }
    let lines = vec![SelectedLine { source: header, start: 1, end: 4 }];
    let table = TableLine::empty(&alignments(2));
    assert_eq!(render(&lines, &table), "**lph**");
}

#[test]
fn partial_table_selection_keeps_header_positions() {
    let header = row_line("Label  Value", 2, &[(0, 0, "Label", 0), (0, 1, "Value", 7)]);
    let body = row_line("alpha  beta", 2, &[(1, 0, "alpha", 0), (1, 1, "beta", 7)]);
    let lines = vec![select_all(body)];
    let _ = header;
    let table = TableLine::empty(&alignments(2));
    assert_eq!(render(&lines, &table), "|  |  |\n|---|---|\n| alpha | beta |");
}

#[test]
fn code_cell_escapes_pipes_only_inside_a_table() {
    let code = CellCopy { marker: chars("`"), code: true, table_cell: false };
    let mut line = row_line("a|b  v", 2, &[(1, 0, "a|b", 0), (1, 1, "v", 5)]);
    if let Some(CopyLine { table: Some(t) }) = &mut line.copy {
        t.fragments[0].source.copy = Some(code);
    }
    let table = TableLine::empty(&alignments(2));
    let whole = vec![select_all(line)];
    assert_eq!(render(&whole, &table), "|  |  |\n|---|---|\n| `a\\|b` | v |");
    let only_code = vec![SelectedLine { source: whole.into_iter().next().unwrap().source, start: 0, end: 3 }];
    assert_eq!(render(&only_code, &table), "`a|b`");
}

#[test]
fn selection_without_cells_copies_escaped_text() {
    let plain = LogicalLineSource { text: chars("a*b"), start: 0, end: 3, prefix_len: 0, copy: None };
    let other = LogicalLineSource { text: chars("c_d"), start: 0, end: 3, prefix_len: 0, copy: None };
    let lines = vec![select_all(plain), select_all(other)];
    let table = TableLine::empty(&alignments(1));
    assert_eq!(render(&lines, &table), "a\\*b\nc\\_d");
}

#[test]
fn repeated_label_parts_are_joined_once() {
    // One cell line "alpha omega" shown in two wrapped pieces, each selected.
    let mut first = row_line("alpha", 1, &[(1, 0, "alpha", 0)]);
    let mut second = row_line("omega", 1, &[(1, 0, "omega", 0)]);
    if let Some(CopyLine { table: Some(t) }) = &mut first.copy {
        t.fragments[0].source = CellSource { id: 0, text: chars("alpha omega"), start: 0, end: 5, copy: None };
    }
    if let Some(CopyLine { table: Some(t) }) = &mut second.copy {
        t.fragments[0].source = CellSource { id: 0, text: chars("alpha omega"), start: 6, end: 11, copy: None };
    }
    let sep = LogicalLineSource {
        text: chars("──"),
        start: 0,
        end: 2,
        prefix_len: 0,
        copy: Some(CopyLine { table: Some(TableLine::empty(&alignments(1))) }),
    };
    let lines = vec![select_all(first), select_all(second), select_all(sep)];
    let table = TableLine::empty(&alignments(1));
    assert_eq!(render(&lines, &table), "|  |\n|---|\n| alpha omega |");
}

#[test]
fn escape_marks_markdown_punctuation() {
    assert_eq!(escape(&chars("*a_[b]|~`<>\\"), 0, 12).into_iter().collect::<String>(), "\\*a\\_\\[b\\]\\|\\~\\`\\<\\>\\\\");
}

#[test]
fn attach_marks_a_line_as_table_copy() {
    let mut line = HyperlinkLine {
        line: Line { spans: vec![Span::styled("ab", Style::plain()), Span::styled("c", Style::plain())] },
        source: None,
    };
    attach(&mut line, None);
    assert!(line.source.is_none());
    attach(&mut line, Some(TableLine::empty(&alignments(1))));
    let source = line.source.unwrap();
    assert_eq!(source.text, chars("abc"));
    assert_eq!((source.start, source.end, source.prefix_len), (0, 3, 0));
    assert!(source.copy.unwrap().table.unwrap().fragments.is_empty());
}

#[test]
fn annotate_cell_gives_each_line_its_cell_fragment() {
    let mut lines = vec![
        HyperlinkLine { line: Line { spans: vec![Span::styled("one", Style::plain())] }, source: None },
        HyperlinkLine { line: Line { spans: vec![Span::styled("two", Style::plain())] }, source: None },
    ];
    let copies = vec![CellCopy { marker: chars("*"), code: false, table_cell: false }];
    annotate_cell(&mut lines, copies, &alignments(3), 2, 1);
    let first = lines[0].source.as_ref().unwrap();
    let table = first.copy.as_ref().unwrap().table.as_ref().unwrap();
    assert_eq!(table.table.len(), 3);
    assert_eq!(table.fragments.len(), 1);
    let f = &table.fragments[0];
    assert_eq!((f.output_start, f.output_end, f.row, f.column), (0, 3, 2, 1));
    assert_eq!((f.source.id, f.source.start, f.source.end), (0, 0, 3));
    assert_eq!(f.source.text, chars("one"));
    assert!(lines[1].source.is_none());
}

#[test]
fn append_projects_fragments_into_the_composed_row() {
    let source = LogicalLineSource {
        text: chars("abcdef"),
        start: 2,
        end: 5,
        prefix_len: 1,
        copy: Some(CopyLine {
            table: Some(TableLine {
                table: alignments(2),
                fragments: vec![
                    Fragment { output_start: 0, output_end: 3, row: 1, column: 0, source: cell(0, "abc", None) },
                    Fragment { output_start: 3, output_end: 6, row: 1, column: 1, source: cell(0, "def", None) },
                ],
            }),
        }),
    };
    let mut out = None;
    append(&mut out, &source, 10);
    let out = out.unwrap();
    assert_eq!(out.table.len(), 2);
    assert_eq!(out.fragments.len(), 2);
    let a = &out.fragments[0];
    assert_eq!((a.output_start, a.output_end, a.source.start, a.source.end), (11, 12, 2, 3));
    let b = &out.fragments[1];
    assert_eq!((b.output_start, b.output_end, b.source.start, b.source.end), (12, 14, 0, 2));
    let mut unchanged = None;
    append(&mut unchanged, &LogicalLineSource { text: vec![], start: 0, end: 0, prefix_len: 0, copy: None }, 0);
    assert!(unchanged.is_none());
}
