//! Styled text: spans, lines, and the character-sequence functions the contracts speak in.

use vstd::prelude::*;

verus! {

/// The colors that session cards use: the theme's accent and magenta.
#[derive(PartialEq, Eq, Structural, Clone, Copy, Debug)]
pub enum Color {
    Accent,
    Magenta,
}

/// The style attributes that session cards and table copies use.
#[derive(PartialEq, Eq, Structural, Clone, Copy, Debug)]
pub struct Style {
    pub fg: Option<Color>,
    pub bold: bool,
    pub dim: bool,
}

impl Style {
    /// The unstyled style.
    pub fn plain() -> (s: Style)
        ensures
            s == (Style { fg: None, bold: false, dim: false }),
    {
        Style { fg: None, bold: false, dim: false }
    }

    /// The dimmed style.
    pub fn dimmed() -> (s: Style)
        ensures
            s == (Style { fg: None, bold: false, dim: true }),
    {
        Style { fg: None, bold: false, dim: true }
    }
}

/// A run of text with one style.
#[derive(Debug)]
pub struct Span {
    pub content: String,
    pub style: Style,
}

/// What a span is: its characters and its style.
pub struct SpanView {
    pub content: Seq<char>,
    pub style: Style,
}

impl View for Span {
    type V = SpanView;

    open spec fn view(&self) -> SpanView {
        SpanView { content: self.content@, style: self.style }
    }
}

impl Clone for Span {
    fn clone(&self) -> (r: Self)
        ensures
            r@ == self@,
    {
        Span { content: self.content.clone(), style: self.style }
    }
}

impl Span {
    /// A span of `content` in `style`.
    pub fn styled(content: &str, style: Style) -> (r: Span)
        ensures
            r@ == (SpanView { content: content@, style }),
    {
        Span { content: content.to_string(), style }
    }

    /// A span of the characters `content` in `style`.
    pub fn from_chars(content: &Vec<char>, style: Style) -> (r: Span)
        ensures
            r@ == (SpanView { content: content@, style }),
    {
        Span { content: string_of(content), style }
    }
}

/// One terminal line made of styled spans.
#[derive(Debug)]
pub struct Line {
    pub spans: Vec<Span>,
}

impl View for Line {
    type V = Seq<SpanView>;

    open spec fn view(&self) -> Seq<SpanView> {
        self.spans@.map_values(|s: Span| s@)
    }
}

impl Clone for Line {
    fn clone(&self) -> (r: Self)
        ensures
            r@ == self@,
    {
        let mut spans: Vec<Span> = Vec::new();
        for i in 0..self.spans.len()
            invariant
                spans.len() == i,
                forall|k: int| 0 <= k < i ==> (#[trigger] spans@[k])@ == self.spans@[k]@,
        {
            spans.push(self.spans[i].clone());
        }
        assert(spans@.map_values(|s: Span| s@) =~= self.spans@.map_values(|s: Span| s@));
        Line { spans }
    }
}

/// The characters of each span of a line.
pub open spec fn span_texts(spans: Seq<SpanView>) -> Seq<Seq<char>> {
    spans.map_values(|s: SpanView| s.content)
}

/// The visible text of a line: its spans' contents, one after another.
pub open spec fn line_text(line: Seq<SpanView>) -> Seq<char> {
    concat(span_texts(line))
}

/// The sequences of `parts`, one after another.
pub open spec fn concat(parts: Seq<Seq<char>>) -> Seq<char>
    decreases parts.len(),
{
    if parts.len() == 0 {
        Seq::empty()
    } else {
        concat(parts.drop_last()) + parts.last()
    }
}

/// The sequences of `parts` with `sep` between each two neighbours.
pub open spec fn join(parts: Seq<Seq<char>>, sep: Seq<char>) -> Seq<char>
    decreases parts.len(),
{
    if parts.len() == 0 {
        Seq::empty()
    } else if parts.len() == 1 {
        parts[0]
    } else {
        join(parts.drop_last(), sep) + sep + parts.last()
    }
}

/// `c` repeated `n` times.
pub open spec fn repeat(c: char, n: nat) -> Seq<char> {
    Seq::new(n, |i: int| c)
}

/// Unicode's White_Space property, as `char::is_whitespace` documents it.
pub open spec fn is_white(c: char) -> bool {
    ||| c == ' '
    ||| '\t' <= c <= '\r'
    ||| c == '\u{85}'
    ||| c == '\u{a0}'
    ||| c == '\u{1680}'
    ||| '\u{2000}' <= c <= '\u{200a}'
    ||| c == '\u{2028}'
    ||| c == '\u{2029}'
    ||| c == '\u{202f}'
    ||| c == '\u{205f}'
    ||| c == '\u{3000}'
}

/// Every character of `s` is white space (what `s.trim().is_empty()` tests).
pub open spec fn all_white(s: Seq<char>) -> bool {
    forall|i: int| 0 <= i < s.len() ==> is_white(#[trigger] s[i])
}

/// Whether `c` is white space.
pub fn is_whitespace(c: char) -> (b: bool)
    ensures
        b == is_white(c),
{
    c == ' ' || ('\t' <= c && c <= '\r') || c == '\u{85}' || c == '\u{a0}' || c == '\u{1680}'
        || ('\u{2000}' <= c && c <= '\u{200a}') || c == '\u{2028}' || c == '\u{2029}' || c
        == '\u{202f}' || c == '\u{205f}' || c == '\u{3000}'
}

/// Whether every character of `s[start..end]` is white space.
pub fn blank_between(s: &Vec<char>, start: usize, end: usize) -> (b: bool)
    requires
        start <= end <= s.len(),
    ensures
        b == all_white(s@.subrange(start as int, end as int)),
{
    let mut i = start;
    while i < end
        invariant
            start <= i <= end <= s.len(),
            all_white(s@.subrange(start as int, i as int)),
        decreases end - i,
    {
        if !is_whitespace(s[i]) {
            assert(s@.subrange(start as int, end as int)[i - start] == s@[i as int]);
            return false;
        }
        i += 1;
        assert forall|k: int| 0 <= k < i - start implies is_white(
            #[trigger] s@.subrange(start as int, i as int)[k],
        ) by {
            if k < i - 1 - start {
                assert(s@.subrange(start as int, i as int)[k] == s@.subrange(
                    start as int,
                    i - 1,
                )[k]);
            }
        }
    }
    true
}

/// The characters of a string slice, in order.
pub fn chars_of(s: &str) -> (v: Vec<char>)
    ensures
        v@ == s@,
{
    broadcast use vstd::string::axiom_spec_iter;

    let mut v: Vec<char> = Vec::new();
    for c in it: s.chars()
        invariant
            it.seq() == s@,
            v@ == it.seq().take(it.index() as int),
    {
        v.push(c);
    }
    v
}

/// The string made of the given characters, as `String::from_iter` builds it.
#[verifier::external_body]
pub(crate) fn string_of(v: &Vec<char>) -> (s: String)
    ensures
        s@ == v@,
{
    String::from_iter(v.iter())
}

/// Appends the characters of `s` to `out`.
pub fn push_str(out: &mut Vec<char>, s: &str)
    ensures
        final(out)@ == old(out)@ + s@,
{
    let mut cs = chars_of(s);
    out.append(&mut cs);
}

/// Appends `v[start..end]` to `out`.
pub fn push_range(out: &mut Vec<char>, v: &Vec<char>, start: usize, end: usize)
    requires
        start <= end <= v.len(),
    ensures
        final(out)@ == old(out)@ + v@.subrange(start as int, end as int),
{
    let mut i = start;
    while i < end
        invariant
            start <= i <= end <= v.len(),
            out@ == old(out)@ + v@.subrange(start as int, i as int),
        decreases end - i,
    {
        out.push(v[i]);
        i += 1;
        assert(out@ == old(out)@ + v@.subrange(start as int, i as int));
    }
}

/// Appends `c` repeated `n` times to `out`.
pub fn push_repeat(out: &mut Vec<char>, c: char, n: usize)
    ensures
        final(out)@ == old(out)@ + repeat(c, n as nat),
{
    let mut i: usize = 0;
    while i < n
        invariant
            i <= n,
            out@ == old(out)@ + repeat(c, i as nat),
        decreases n - i,
    {
        out.push(c);
        i += 1;
        assert(out@ == old(out)@ + repeat(c, i as nat));
    }
}

/// The display width of a text, in terminal columns, as ratatui measures a span.
pub uninterp spec fn display_width(s: Seq<char>) -> nat;

/// Characters one column wide wherever they stand in a text made only of them: printable
/// ASCII, the box-drawing lines and corners cards are framed with, and the ellipsis.
pub open spec fn narrow_char(c: char) -> bool {
    ||| ' ' <= c <= '~'
    ||| c == '\u{2500}'
    ||| c == '\u{2502}'
    ||| c == '\u{256d}'
    ||| c == '\u{256e}'
    ||| c == '\u{2570}'
    ||| c == '\u{256f}'
    ||| c == '\u{2026}'
}

/// A text made only of narrow characters.
pub open spec fn narrow_text(s: Seq<char>) -> bool {
    forall|i: int| 0 <= i < s.len() ==> narrow_char(#[trigger] s[i])
}

/// Measures `content` with `ratatui::text::Span::width`, which is the Unicode width of the
/// content (`unicode-width`'s `str_width`). The contract claims that the result is the width
/// of the characters, a function of them alone, and that a text of narrow characters is
/// as wide as it is long: `unicode-width` gives printable ASCII and these box-drawing
/// characters and the ellipsis (East Asian ambiguous, counted narrow) one column each, and
/// none of them starts or joins a sequence of another width. No other width is stated.
#[verifier::external_body]
pub(crate) fn span_width(content: &str) -> (w: usize)
    ensures
        w == display_width(content@),
        narrow_text(content@) ==> w == content@.len(),
{
    ratatui::text::Span::raw(content).width()
}


/// The display width of a line: the widths of its spans, added up.
pub open spec fn line_width(line: Seq<SpanView>) -> nat
    decreases line.len(),
{
    if line.len() == 0 {
        0
    } else {
        line_width(line.drop_last()) + display_width(line.last().content)
    }
}

pub(crate) proof fn lemma_line_width_concat(a: Seq<SpanView>, b: Seq<SpanView>)
    ensures
        line_width(a + b) == line_width(a) + line_width(b),
    decreases b.len(),
{
    if b.len() == 0 {
        assert(a + b =~= a);
    } else {
        assert((a + b).drop_last() =~= a + b.drop_last());
        lemma_line_width_concat(a, b.drop_last());
    }
}

pub(crate) proof fn lemma_line_width_single(s: SpanView)
    ensures
        line_width(seq![s]) == display_width(s.content),
{
    assert(seq![s].drop_last() =~= Seq::<SpanView>::empty());
    assert(seq![s].last() == s);
    assert(line_width(Seq::<SpanView>::empty()) == 0);
}

proof fn lemma_fit_from_fits(s: Seq<char>, budget: nat, j: int)
    requires
        0 <= j <= s.len(),
        j == 0 || display_width(s.take(j)) <= budget,
    ensures
        fit_from(s, budget, j) == 0 || display_width(s.take(fit_from(s, budget, j))) <= budget,
    decreases s.len() - j,
{
    if j < s.len() && display_width(s.take(j + 1)) <= budget {
        lemma_fit_from_fits(s, budget, j + 1);
    }
}

/// A cut line is at most its budget and one ellipsis wide.
proof fn lemma_cut_width(spans: Seq<SpanView>, budget: nat)
    ensures
        line_width(cut_spans(spans, budget)) <= budget + display_width(seq!['\u{2026}']),
    decreases spans.len(),
{
    if spans.len() > 0 {
        let s = spans[0];
        let w = display_width(s.content);
        let ell = SpanView { content: seq!['\u{2026}'], style: s.style };
        lemma_line_width_single(ell);
        if w <= budget {
            lemma_cut_width(spans.drop_first(), (budget - w) as nat);
            lemma_line_width_concat(seq![s], cut_spans(spans.drop_first(), (budget - w) as nat));
            lemma_line_width_single(s);
        } else {
            let k = fit_from(s.content, budget, 0);
            lemma_fit_from_fits(s.content, budget, 0);
            if k > 0 {
                let piece = SpanView { content: s.content.take(k), style: s.style };
                lemma_line_width_single(piece);
                lemma_line_width_concat(seq![piece], seq![ell]);
            } else {
                assert(Seq::<SpanView>::empty() + seq![ell] =~= seq![ell]);
            }
        }
    }
}

proof fn lemma_line_width_prefix(line: Seq<SpanView>, i: int)
    requires
        0 <= i <= line.len(),
    ensures
        line_width(line.take(i)) <= line_width(line),
    decreases line.len() - i,
{
    if i < line.len() {
        lemma_line_width_prefix(line, i + 1);
        assert(line.take(i + 1).drop_last() =~= line.take(i));
    } else {
        assert(line.take(i) =~= line);
    }
}

/// The width of `line`, or `None` when it exceeds `limit`.
pub fn line_width_within(line: &Line, limit: usize) -> (r: Option<usize>)
    ensures
        match r {
            Some(w) => w == line_width(line@) && w <= limit,
            None => line_width(line@) > limit,
        },
{
    let ghost lv = line@;
    let mut sum: usize = 0;
    for i in 0..line.spans.len()
        invariant
            lv == line@,
            sum == line_width(lv.take(i as int)),
            sum <= limit,
    {
        assert(lv.take(i + 1).drop_last() =~= lv.take(i as int));
        assert(lv[i as int].content == line.spans@[i as int].content@);
        let w = span_width(line.spans[i].content.as_str());
        if w > limit - sum {
            proof {
                lemma_line_width_prefix(lv, i + 1);
            }
            return None;
        }
        sum = sum + w;
    }
    assert(lv.take(line.spans.len() as int) =~= lv);
    Some(sum)
}

/// The longest prefix of `s`, grown one character at a time from `k`, whose width stays
/// within `budget`.
pub open spec fn fit_from(s: Seq<char>, budget: nat, k: int) -> int
    decreases s.len() - k,
{
    if 0 <= k < s.len() && display_width(s.take(k + 1)) <= budget {
        fit_from(s, budget, k + 1)
    } else {
        k
    }
}

/// The longest suffix of `s`, grown one character at a time from `k`, whose width stays
/// within `budget`.
pub open spec fn fit_back_from(s: Seq<char>, budget: nat, k: int) -> int
    decreases s.len() - k,
{
    if 0 <= k < s.len() && display_width(s.skip(s.len() - (k + 1))) <= budget {
        fit_back_from(s, budget, k + 1)
    } else {
        k
    }
}

proof fn lemma_fit_from_range(s: Seq<char>, budget: nat, k: int)
    requires
        0 <= k <= s.len(),
    ensures
        k <= fit_from(s, budget, k) <= s.len(),
    decreases s.len() - k,
{
    if k < s.len() && display_width(s.take(k + 1)) <= budget {
        lemma_fit_from_range(s, budget, k + 1);
    }
}

proof fn lemma_fit_back_from_range(s: Seq<char>, budget: nat, k: int)
    requires
        0 <= k <= s.len(),
    ensures
        k <= fit_back_from(s, budget, k) <= s.len(),
    decreases s.len() - k,
{
    if k < s.len() && display_width(s.skip(s.len() - (k + 1))) <= budget {
        lemma_fit_back_from_range(s, budget, k + 1);
    }
}

/// How many leading characters of `s` fit in `budget` columns.
pub fn fit_prefix(s: &Vec<char>, budget: usize) -> (k: usize)
    ensures
        k == fit_from(s@, budget as nat, 0),
        k <= s.len(),
{
    proof {
        lemma_fit_from_range(s@, budget as nat, 0);
    }
    let mut k: usize = 0;
    while k < s.len()
        invariant
            k <= s.len(),
            fit_from(s@, budget as nat, 0) == fit_from(s@, budget as nat, k as int),
        decreases s.len() - k,
    {
        let mut prefix: Vec<char> = Vec::new();
        push_range(&mut prefix, s, 0, k + 1);
        assert(prefix@ == s@.take(k + 1));
        let w = span_width(string_of(&prefix).as_str());
        if w > budget {
            return k;
        }
        k += 1;
    }
    k
}

/// How many trailing characters of `s` fit in `budget` columns.
pub fn fit_suffix(s: &Vec<char>, budget: usize) -> (k: usize)
    ensures
        k == fit_back_from(s@, budget as nat, 0),
        k <= s.len(),
{
    proof {
        lemma_fit_back_from_range(s@, budget as nat, 0);
    }
    let mut k: usize = 0;
    while k < s.len()
        invariant
            k <= s.len(),
            fit_back_from(s@, budget as nat, 0) == fit_back_from(s@, budget as nat, k as int),
        decreases s.len() - k,
    {
        let mut suffix: Vec<char> = Vec::new();
        push_range(&mut suffix, s, s.len() - (k + 1), s.len());
        assert(suffix@ == s@.skip(s.len() - (k + 1)));
        let w = span_width(string_of(&suffix).as_str());
        if w > budget {
            return k;
        }
        k += 1;
    }
    k
}

/// The spans of a line that is too wide, cut at `budget` columns: whole spans while they
/// fit, then the leading characters of the next span that fit, then an ellipsis in that
/// span's style.
pub open spec fn cut_spans(spans: Seq<SpanView>, budget: nat) -> Seq<SpanView>
    decreases spans.len(),
{
    if spans.len() == 0 {
        Seq::empty()
    } else {
        let s = spans[0];
        let w = display_width(s.content);
        if w <= budget {
            seq![s] + cut_spans(spans.drop_first(), (budget - w) as nat)
        } else {
            let k = fit_from(s.content, budget, 0);
            (if k > 0 {
                seq![SpanView { content: s.content.take(k), style: s.style }]
            } else {
                Seq::empty()
            }) + seq![SpanView { content: seq!['\u{2026}'], style: s.style }]
        }
    }
}

/// A line cut to `max_width` columns with an ellipsis when it is wider.
pub open spec fn truncate_spec(line: Seq<SpanView>, max_width: nat) -> Seq<SpanView> {
    if line_width(line) <= max_width {
        line
    } else if max_width == 0 {
        Seq::empty()
    } else {
        cut_spans(line, (max_width - 1) as nat)
    }
}

pub open spec fn lines_view(v: Seq<Line>) -> Seq<Seq<SpanView>> {
    v.map_values(|l: Line| l@)
}

/// `line` cut to `max_width` columns, with an ellipsis where it was cut.
pub fn truncate_line(line: &Line, max_width: usize) -> (r: Line)
    ensures
        r@ == truncate_spec(line@, max_width as nat),
        line_width(r@) <= max_width,
{
    let ghost lv = line@;
    let fits = line_width_within(line, max_width);
    if fits.is_some() {
        return line.clone();
    }
    assert(line_width(lv) > max_width);
    if max_width == 0 {
        let r = Line { spans: Vec::new() };
        assert(r@ =~= Seq::<SpanView>::empty());
        return r;
    }
    let budget = max_width - 1;
    // The ellipsis takes the one column kept back from the budget.
    let ellipsis_width = span_width("\u{2026}");
    proof {
        reveal_strlit("\u{2026}");
        assert("\u{2026}"@ =~= seq!['\u{2026}']);
        assert(narrow_text(seq!['\u{2026}']));
        lemma_cut_width(lv, budget as nat);
    }
    assert(display_width(seq!['\u{2026}']) == 1);
    let mut spans: Vec<Span> = Vec::new();
    let mut used: usize = 0;
    let mut i: usize = 0;
    assert(lv.skip(0) =~= lv);
    assert(lv.take(0) =~= Seq::<SpanView>::empty());
    while i < line.spans.len()
        invariant
            lv == line@,
            max_width > 0,
            budget == max_width - 1,
            line_width(lv) > max_width,
            line_width(cut_spans(lv, budget as nat)) <= max_width,
            i <= line.spans.len(),
            used <= budget,
            spans@.map_values(|s: Span| s@) == lv.take(i as int),
            cut_spans(lv, budget as nat) == lv.take(i as int) + cut_spans(
                lv.skip(i as int),
                (budget - used) as nat,
            ),
        decreases line.spans.len() - i,
    {
        let span = &line.spans[i];
        assert(lv[i as int] == span@);
        let w = span_width(span.content.as_str());
        let ghost tail = lv.skip(i as int);
        assert(tail[0] == lv[i as int]);
        assert(tail.drop_first() =~= lv.skip(i + 1));
        if w <= budget - used {
            assert(cut_spans(tail, (budget - used) as nat) == seq![lv[i as int]] + cut_spans(
                lv.skip(i + 1),
                (budget - used - w) as nat,
            ));
            spans.push(span.clone());
            used = used + w;
            assert(lv.take(i as int) + seq![lv[i as int]] =~= lv.take(i + 1));
            i += 1;
            assert(spans@.map_values(|s: Span| s@) =~= lv.take(i as int));
        } else {
            let content = chars_of(span.content.as_str());
            let k = fit_prefix(&content, budget - used);
            let ghost piece = if k > 0 {
                seq![SpanView { content: span@.content.take(k as int), style: span.style }]
            } else {
                Seq::<SpanView>::empty()
            };
            assert(cut_spans(tail, (budget - used) as nat) == piece + seq![
                SpanView { content: seq!['\u{2026}'], style: span.style },
            ]);
            if k > 0 {
                let mut prefix: Vec<char> = Vec::new();
                push_range(&mut prefix, &content, 0, k);
                spans.push(Span::from_chars(&prefix, span.style));
            }
            let ellipsis = vec!['\u{2026}'];
            spans.push(Span::from_chars(&ellipsis, span.style));
            let r = Line { spans };
            assert(ellipsis@ =~= seq!['\u{2026}']);
            assert(r@ =~= lv.take(i as int) + (piece + seq![
                SpanView { content: seq!['\u{2026}'], style: span.style },
            ]));
            assert(r@ == cut_spans(lv, budget as nat));
            return r;
        }
    }
    assert(lv.take(i as int) =~= lv);
    assert(lv.skip(i as int) =~= Seq::<SpanView>::empty());
    let r = Line { spans };
    assert(r@ =~= cut_spans(lv, budget as nat));
    r
}


/// A text too wide for `max_width` columns, cut in the middle: the leading characters that
/// fit in half the room before the ellipsis, the ellipsis, and the trailing characters
/// that fit in what is left.
pub open spec fn center_cut(s: Seq<char>, max_width: nat) -> Seq<char> {
    let budget = (max_width - 1) as nat;
    let left = fit_from(s, (budget + 1) / 2, 0);
    let right_budget = budget - display_width(s.take(left));
    let right = fit_back_from(
        s,
        if right_budget >= 0 {
            right_budget as nat
        } else {
            0
        },
        0,
    );
    s.take(left) + seq!['\u{2026}'] + s.skip(s.len() - right)
}

/// `s` cut in the middle to fit in `max_width` columns.
pub fn center_truncate(s: &Vec<char>, max_width: usize) -> (r: Vec<char>)
    requires
        max_width > 0,
    ensures
        r@ == center_cut(s@, max_width as nat),
{
    let budget = max_width - 1;
    let half = budget / 2 + budget % 2;
    assert(half == (budget + 1) / 2);
    let left = fit_prefix(s, half);
    let mut r: Vec<char> = Vec::new();
    push_range(&mut r, s, 0, left);
    let left_width = span_width(string_of(&r).as_str());
    let right_budget = if left_width <= budget {
        budget - left_width
    } else {
        0
    };
    let right = fit_suffix(s, right_budget);
    r.push('\u{2026}');
    push_range(&mut r, s, s.len() - right, s.len());
    r
}

/// Whether two character vectors are equal.
pub fn same_chars(a: &Vec<char>, b: &Vec<char>) -> (r: bool)
    ensures
        r == (a@ == b@),
{
    if a.len() != b.len() {
        return false;
    }
    let mut i: usize = 0;
    while i < a.len()
        invariant
            a.len() == b.len(),
            i <= a.len(),
            forall|k: int| 0 <= k < i ==> a@[k] == b@[k],
        decreases a.len() - i,
    {
        if a[i] != b[i] {
            return false;
        }
        i += 1;
    }
    assert(a@ =~= b@);
    true
}

/// `s` without one trailing carriage return.
pub open spec fn strip_cr(s: Seq<char>) -> Seq<char> {
    if s.len() > 0 && s.last() == '\r' {
        s.drop_last()
    } else {
        s
    }
}

/// The lines of `s` that follow `current`, the part of a line already read.
pub open spec fn lines_from(s: Seq<char>, current: Seq<char>) -> Seq<Seq<char>>
    decreases s.len(),
{
    if s.len() == 0 {
        if current.len() == 0 {
            Seq::empty()
        } else {
            seq![current]
        }
    } else if s[0] == '\n' {
        seq![strip_cr(current)] + lines_from(s.drop_first(), Seq::empty())
    } else {
        lines_from(s.drop_first(), current.push(s[0]))
    }
}

/// The lines of a text as `str::lines` gives them: split at each line feed, with a carriage
/// return just before it dropped, and no empty line after a final line feed.
pub open spec fn str_lines(s: Seq<char>) -> Seq<Seq<char>> {
    lines_from(s, Seq::empty())
}

/// The text a line displays as a string: each span's lines, one after another, so that
/// line breaks inside a span are dropped.
pub open spec fn line_display_text(line: Seq<SpanView>) -> Seq<char>
    decreases line.len(),
{
    if line.len() == 0 {
        Seq::empty()
    } else {
        line_display_text(line.drop_last()) + concat(str_lines(line.last().content))
    }
}

/// The lines of `s`, as `str::lines` splits them.
pub fn split_lines(s: &Vec<char>) -> (r: Vec<Vec<char>>)
    ensures
        r@.map_values(|p: Vec<char>| p@) == str_lines(s@),
{
    let mut out: Vec<Vec<char>> = Vec::new();
    let mut current: Vec<char> = Vec::new();
    let mut i: usize = 0;
    assert(s@.subrange(0, s.len() as int) =~= s@);
    while i < s.len()
        invariant
            i <= s.len(),
            out@.map_values(|p: Vec<char>| p@) + lines_from(
                s@.subrange(i as int, s.len() as int),
                current@,
            ) == str_lines(s@),
        decreases s.len() - i,
    {
        let ghost rest = s@.subrange(i as int, s.len() as int);
        let ghost done = out@.map_values(|p: Vec<char>| p@);
        assert(rest.drop_first() =~= s@.subrange(i + 1, s.len() as int));
        assert(rest[0] == s@[i as int]);
        let ghost cur0 = current@;
        if s[i] == '\n' {
            let n = current.len();
            if n > 0 && current[n - 1] == '\r' {
                current.pop();
            }
            assert(current@ =~= strip_cr(cur0));
            let line = current;
            out.push(line);
            current = Vec::new();
            assert(out@.map_values(|p: Vec<char>| p@) =~= done.push(line@));
            assert(done.push(line@) + lines_from(rest.drop_first(), Seq::empty()) =~= done + (seq![
                line@,
            ] + lines_from(rest.drop_first(), Seq::empty())));
        } else {
            current.push(s[i]);
        }
        i += 1;
    }
    let ghost done = out@.map_values(|p: Vec<char>| p@);
    assert(s@.subrange(i as int, s.len() as int) =~= Seq::<char>::empty());
    if current.len() > 0 {
        let line = current;
        out.push(line);
        assert(out@.map_values(|p: Vec<char>| p@) =~= done + seq![line@]);
    } else {
        assert(done + Seq::<Seq<char>>::empty() =~= done);
    }
    out
}

/// The lines of `content`, one after another, appended to `out`.
fn push_joined_lines(out: &mut Vec<char>, content: &str)
    ensures
        final(out)@ == old(out)@ + concat(str_lines(content@)),
{
    let pieces = split_lines(&chars_of(content));
    let ghost pv = pieces@.map_values(|p: Vec<char>| p@);
    let ghost start = out@;
    for j in 0..pieces.len()
        invariant
            pv == pieces@.map_values(|p: Vec<char>| p@),
            out@ == start + concat(pv.take(j as int)),
    {
        push_range(out, &pieces[j], 0, pieces[j].len());
        assert(pieces[j as int]@.subrange(0, pieces[j as int]@.len() as int) =~= pv[j as int]);
        assert(pv.take(j + 1).drop_last() =~= pv.take(j as int));
        assert(out@ =~= start + concat(pv.take(j + 1)));
    }
    assert(pv.take(pieces.len() as int) =~= pv);
}

/// The text `line` displays as a string.
pub fn display_text(line: &Line) -> (r: Vec<char>)
    ensures
        r@ == line_display_text(line@),
{
    let mut r: Vec<char> = Vec::new();
    for i in 0..line.spans.len()
        invariant
            r@ == line_display_text(line@.take(i as int)),
    {
        push_joined_lines(&mut r, line.spans[i].content.as_str());
        assert(line@.take(i + 1).drop_last() =~= line@.take(i as int));
    }
    assert(line@.take(line.spans.len() as int) =~= line@);
    r
}

/// The visible text of `line` as one character vector.
pub fn line_chars(line: &Line) -> (r: Vec<char>)
    ensures
        r@ == line_text(line@),
{
    let mut r: Vec<char> = Vec::new();
    for i in 0..line.spans.len()
        invariant
            r@ == line_text(line@.take(i as int)),
    {
        push_str(&mut r, line.spans[i].content.as_str());
        assert(line@.take(i + 1).drop_last() == line@.take(i as int));
        assert(span_texts(line@.take(i + 1)).drop_last() == span_texts(
            line@.take(i as int),
        ));
    }
    assert(line@.take(line.spans.len() as int) == line@);
    r
}

} // verus!
