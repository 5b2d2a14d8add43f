//! Session headers, onboarding guidance, and transcript cards.

use vstd::prelude::*;
use crate::markdown_copy::{HyperlinkLine, HyperlinkLineView};
use crate::text::{
    Color, Line, Span, SpanView, Style, center_cut, center_truncate, chars_of, display_text,
    display_width, line_display_text, line_chars, line_text, line_width, line_width_within, lines_view, push_repeat, push_str,
    repeat, same_chars, span_width, split_lines, str_lines, string_of, truncate_line,
    truncate_spec, narrow_char, narrow_text, lemma_line_width_concat, lemma_line_width_single,
};

verus! {

// ---------------------------------------------------------------------------------------
// Styles
// ---------------------------------------------------------------------------------------

pub open spec fn plain() -> Style {
    Style { fg: None, bold: false, dim: false }
}

pub open spec fn dim() -> Style {
    Style { fg: None, bold: false, dim: true }
}

pub open spec fn bold() -> Style {
    Style { fg: None, bold: true, dim: false }
}

pub open spec fn accent() -> Style {
    Style { fg: Some(Color::Accent), bold: false, dim: false }
}

pub open spec fn magenta_bold() -> Style {
    Style { fg: Some(Color::Magenta), bold: true, dim: false }
}

pub open spec fn span(content: Seq<char>, style: Style) -> SpanView {
    SpanView { content, style }
}

/// A line made from a string, as ratatui's `Line::from` makes it: one unstyled span for each
/// of the string's lines, so that line breaks are dropped.
pub open spec fn text_line(content: Seq<char>) -> Seq<SpanView> {
    str_lines(content).map_values(|p: Seq<char>| span(p, plain()))
}

fn plain_span(content: &str) -> (r: Span)
    ensures
        r@ == span(content@, plain()),
{
    Span::styled(content, Style { fg: None, bold: false, dim: false })
}

fn dim_span(content: &str) -> (r: Span)
    ensures
        r@ == span(content@, dim()),
{
    Span::styled(content, Style { fg: None, bold: false, dim: true })
}

fn text_line_of(content: &Vec<char>) -> (r: Line)
    ensures
        r@ == text_line(content@),
{
    let pieces = split_lines(content);
    let ghost pv = pieces@.map_values(|p: Vec<char>| p@);
    let mut spans: Vec<Span> = Vec::new();
    for j in 0..pieces.len()
        invariant
            pv == pieces@.map_values(|p: Vec<char>| p@),
            spans.len() == j,
            forall|k: int| 0 <= k < j ==> (#[trigger] spans@[k])@ == span(pv[k], plain()),
    {
        spans.push(Span::from_chars(&pieces[j], Style { fg: None, bold: false, dim: false }));
    }
    let r = Line { spans };
    assert(r@ =~= text_line(content@));
    r
}

// ---------------------------------------------------------------------------------------
// Permissions
// ---------------------------------------------------------------------------------------

/// When the agent asks before acting.
#[derive(PartialEq, Eq, Structural, Clone, Copy, Debug)]
pub enum AskForApproval {
    UnlessTrusted,
    OnFailure,
    OnRequest,
    Never,
}

/// What a managed sandbox lets the agent do with files.
#[derive(PartialEq, Eq, Structural, Clone, Copy, Debug)]
pub enum ManagedFileSystemPermissions {
    Unrestricted,
    Restricted,
}

/// Whether a managed sandbox lets the agent use the network.
#[derive(PartialEq, Eq, Structural, Clone, Copy, Debug)]
pub enum NetworkSandboxPolicy {
    Enabled,
    Restricted,
}

/// The sandbox the agent runs in.
#[derive(PartialEq, Eq, Structural, Clone, Copy, Debug)]
pub enum PermissionProfile {
    Disabled,
    Managed { file_system: ManagedFileSystemPermissions, network: NetworkSandboxPolicy },
}

/// The agent never asks and nothing restricts it.
pub open spec fn yolo_spec(approval_policy: AskForApproval, profile: PermissionProfile) -> bool {
    approval_policy == AskForApproval::Never && match profile {
        PermissionProfile::Disabled => true,
        PermissionProfile::Managed { file_system, network } => file_system
            == ManagedFileSystemPermissions::Unrestricted && network
            == NetworkSandboxPolicy::Enabled,
    }
}

pub fn has_yolo_permissions(
    approval_policy: AskForApproval,
    permission_profile: &PermissionProfile,
) -> (r: bool)
    ensures
        r == yolo_spec(approval_policy, *permission_profile),
        r ==> approval_policy == AskForApproval::Never,
        (*permission_profile matches PermissionProfile::Managed { file_system, network } && (
        file_system == ManagedFileSystemPermissions::Restricted || network
            == NetworkSandboxPolicy::Restricted)) ==> !r,
{
    approval_policy == AskForApproval::Never && match permission_profile {
        PermissionProfile::Disabled => true,
        PermissionProfile::Managed { file_system, network } => *file_system
            == ManagedFileSystemPermissions::Unrestricted && *network
            == NetworkSandboxPolicy::Enabled,
    }
}

/// The permission settings of a configuration.
#[derive(Debug)]
pub struct Permissions {
    pub approval_policy: AskForApproval,
    pub permission_profile: PermissionProfile,
}

impl Permissions {
    /// The sandbox these settings put the agent in.
    pub fn effective_permission_profile(&self) -> (r: PermissionProfile)
        ensures
            r == self.permission_profile,
    {
        self.permission_profile
    }
}

/// The parts of the configuration that session cards read.
#[derive(Debug)]
pub struct Config {
    pub cwd: String,
    pub permissions: Permissions,
}

pub fn is_yolo_mode(config: &Config) -> (r: bool)
    ensures
        r == yolo_spec(config.permissions.approval_policy, config.permissions.permission_profile),
{
    has_yolo_permissions(
        config.permissions.approval_policy,
        &config.permissions.effective_permission_profile(),
    )
}

// ---------------------------------------------------------------------------------------
// Title and greeting
// ---------------------------------------------------------------------------------------

/// The brand title: `>_ ` in the accent color, `OpenAI Codex` in bold, and the version.
pub open spec fn codex_title_spec(version: Seq<char>) -> Seq<SpanView> {
    seq![
        span(">_ "@, accent()),
        span("OpenAI Codex"@, bold()),
        span(" (v"@ + version + ")"@, dim()),
    ]
}

/// Brand title shared by the session header and the status card; each owns its own indentation.
pub fn codex_title(version: &str) -> (r: Vec<Span>)
    ensures
        r@.map_values(|s: Span| s@) == codex_title_spec(version@),
{
    let mut v: Vec<char> = Vec::new();
    push_str(&mut v, " (v");
    push_str(&mut v, version);
    push_str(&mut v, ")");
    let mut r: Vec<Span> = Vec::new();
    r.push(Span::styled(">_ ", Style { fg: Some(Color::Accent), bold: false, dim: false }));
    r.push(Span::styled("OpenAI Codex", Style { fg: None, bold: true, dim: false }));
    r.push(Span::from_chars(&v, Style { fg: None, bold: false, dim: true }));
    assert(r@.map_values(|s: Span| s@) =~= codex_title_spec(version@));
    r
}

/// The welcome phrase a fresh conversation greets with.
#[derive(Debug)]
pub struct Greeting {
    pub phrase: String,
}

impl Clone for Greeting {
    fn clone(&self) -> (r: Self)
        ensures
            r.phrase@ == self.phrase@,
    {
        Greeting { phrase: self.phrase.clone() }
    }
}

pub open spec fn greeting_view(g: Option<Greeting>) -> Option<Seq<char>> {
    match g {
        Some(g) => Some(g.phrase@),
        None => None,
    }
}

fn clone_greeting(g: &Option<Greeting>) -> (r: Option<Greeting>)
    ensures
        greeting_view(r) == greeting_view(*g),
{
    match g {
        Some(g) => Some(g.clone()),
        None => None,
    }
}

/// A thread's greeting slot: the headers bound to it and the thread's animation share it,
/// so a greeting chosen into it shows in every header bound to it, before or after the
/// choice.
#[derive(PartialEq, Eq, Structural, Clone, Copy, Debug)]
pub struct GreetingSlot {
    pub id: usize,
}

/// The greeting slots: what each holds, chosen at most once.
#[derive(Debug)]
pub struct GreetingSlots {
    pub held: Vec<Option<Greeting>>,
}

impl View for GreetingSlots {
    type V = Seq<Option<Seq<char>>>;

    open spec fn view(&self) -> Seq<Option<Seq<char>>> {
        self.held@.map_values(|g: Option<Greeting>| greeting_view(g))
    }
}

/// What the header bound to `slot` shows as its greeting.
pub open spec fn bound_greeting(
    slots: Seq<Option<Seq<char>>>,
    slot: Option<GreetingSlot>,
) -> Option<Seq<char>> {
    match slot {
        Some(s) => if s.id < slots.len() {
            slots[s.id as int]
        } else {
            None
        },
        None => None,
    }
}

/// `slots` with `g` chosen into `slot` unless it holds a greeting already.
pub open spec fn choose_into(
    slots: Seq<Option<Seq<char>>>,
    slot: GreetingSlot,
    g: Seq<char>,
) -> Seq<Option<Seq<char>>> {
    if slot.id < slots.len() && slots[slot.id as int] is None {
        slots.update(slot.id as int, Some(g))
    } else {
        slots
    }
}

impl GreetingSlots {
    /// No slots.
    pub fn new() -> (r: Self)
        ensures
            r@ == Seq::<Option<Seq<char>>>::empty(),
    {
        let r = GreetingSlots { held: Vec::new() };
        assert(r@ =~= Seq::<Option<Seq<char>>>::empty());
        r
    }

    /// A new empty slot.
    pub fn add(&mut self) -> (slot: GreetingSlot)
        ensures
            final(self)@ == old(self)@.push(None),
            slot.id == old(self)@.len(),
    {
        let slot = GreetingSlot { id: self.held.len() };
        let ghost before = self.held@;
        self.held.push(None);
        assert(self@ =~= old(self)@.push(None));
        slot
    }

    /// What `slot` holds.
    pub fn get(&self, slot: GreetingSlot) -> (r: Option<Greeting>)
        ensures
            greeting_view(r) == bound_greeting(self@, Some(slot)),
    {
        if slot.id < self.held.len() {
            clone_greeting(&self.held[slot.id])
        } else {
            None
        }
    }

    /// Chooses `g` into `slot` unless it holds a greeting already; says whether it did.
    pub fn set(&mut self, slot: GreetingSlot, g: Greeting) -> (r: bool)
        ensures
            final(self)@ == choose_into(old(self)@, slot, g.phrase@),
            r == (slot.id < old(self)@.len() && old(self)@[slot.id as int] is None),
    {
        if slot.id < self.held.len() && self.held[slot.id].is_none() {
            let ghost pv = g.phrase@;
            self.held.set(slot.id, Some(g));
            assert(self@ =~= old(self)@.update(slot.id as int, Some(pv)));
            true
        } else {
            false
        }
    }
}

/// How hard the model reasons.
#[derive(PartialEq, Eq, Structural, Clone, Copy, Debug)]
pub enum ReasoningEffort {
    Minimal,
    Low,
    Medium,
    High,
}

pub open spec fn effort_label(e: ReasoningEffort) -> Seq<char> {
    match e {
        ReasoningEffort::Minimal => "minimal"@,
        ReasoningEffort::Low => "low"@,
        ReasoningEffort::Medium => "medium"@,
        ReasoningEffort::High => "high"@,
    }
}

impl ReasoningEffort {
    /// The effort's name as the session card shows it.
    pub fn as_str(&self) -> (r: &'static str)
        ensures
            r@ == effort_label(*self),
    {
        match self {
            ReasoningEffort::Minimal => "minimal",
            ReasoningEffort::Low => "low",
            ReasoningEffort::Medium => "medium",
            ReasoningEffort::High => "high",
        }
    }
}

// ---------------------------------------------------------------------------------------
// Directory formatting
// ---------------------------------------------------------------------------------------

/// The path of `directory` relative to `home`, as `std::path::Path::strip_prefix` gives it,
/// when `directory` lies under `home`.
pub uninterp spec fn relative_to_home(directory: Seq<char>, home: Seq<char>) -> Option<Seq<char>>;

pub open spec fn opt_string_view(s: Option<String>) -> Option<Seq<char>> {
    match s {
        Some(s) => Some(s@),
        None => None,
    }
}

/// Calls `std::path::Path::strip_prefix` on `directory` with `home` and displays the rest.
/// The contract claims only that the result is a function of the two paths: the path of
/// `directory` below `home`, or none when `home` is not one of its ancestors; what
/// component-wise prefix matching returns is left to the name.
#[verifier::external_body]
fn strip_home(directory: &str, home: &str) -> (r: Option<String>)
    ensures
        opt_string_view(r) == relative_to_home(directory@, home@),
{
    std::path::Path::new(directory).strip_prefix(home).ok().map(|p| p.display().to_string())
}

/// A character that separates path components on some platform: `/` or `\\`.
pub open spec fn path_separator(c: char) -> bool {
    c == '/' || c == '\\'
}

pub open spec fn opt_str_view(s: Option<&str>) -> Option<Seq<char>> {
    match s {
        Some(s) => Some(s@),
        None => None,
    }
}

/// The platform's path separator, `std::path::MAIN_SEPARATOR`: `/` on Unix and `\` on
/// Windows, as its documentation gives them. The contract claims only that it is one of
/// the two.
#[verifier::external_body]
fn main_separator() -> (c: char)
    ensures
        c == '/' || c == '\\',
{
    std::path::MAIN_SEPARATOR
}

/// The directory as the header shows it: `~` for the home directory, `~` and the separator
/// before the rest below it, else as it is.
pub open spec fn home_relative_spec(
    directory: Seq<char>,
    home: Option<Seq<char>>,
    separator: char,
) -> Seq<char> {
    match home {
        Some(h) => match relative_to_home(directory, h) {
            Some(rel) => if rel.len() == 0 {
                seq!['~']
            } else {
                seq!['~', separator] + rel
            },
            None => directory,
        },
        None => directory,
    }
}

/// The directory, cut in the middle when it is wider than `max_width`.
pub open spec fn format_directory_spec(
    directory: Seq<char>,
    home: Option<Seq<char>>,
    separator: char,
    max_width: Option<usize>,
) -> Seq<char> {
    let formatted = home_relative_spec(directory, home, separator);
    match max_width {
        None => formatted,
        Some(m) => if m == 0 {
            Seq::empty()
        } else if display_width(formatted) > m {
            center_cut(formatted, m as nat)
        } else {
            formatted
        },
    }
}

// ---------------------------------------------------------------------------------------
// Tooltip cards
// ---------------------------------------------------------------------------------------

/// A tip card shown after the session header.
#[derive(Debug)]
pub struct TooltipHistoryCell {
    pub tip: String,
    pub cwd: String,
}

impl TooltipHistoryCell {
    pub fn new(tip: String, cwd: &str) -> (r: Self)
        ensures
            r.tip@ == tip@,
            r.cwd@ == cwd@,
    {
        TooltipHistoryCell { tip, cwd: cwd.to_string() }
    }

    /// The width the tip is wrapped to: the card's width less its two-column indent, at
    /// least one column.
    pub fn wrap_width(&self, width: u16) -> (r: usize)
        ensures
            r == tooltip_wrap_width(width),
    {
        let indent_width = span_width("  ");
        let width = if width < 1 {
            1usize
        } else {
            width as usize
        };
        let w = if width >= indent_width {
            width - indent_width
        } else {
            0
        };
        if w < 1 {
            1
        } else {
            w
        }
    }

    /// The tip as one plain line: `Tip: ` and the tip.
    pub fn raw_lines(&self) -> (r: Vec<Line>)
        ensures
            lines_view(r@) == seq![tooltip_raw_line(self.tip@)],
    {
        let mut v: Vec<char> = Vec::new();
        push_str(&mut v, "Tip: ");
        push_str(&mut v, self.tip.as_str());
        let mut r: Vec<Line> = Vec::new();
        r.push(text_line_of(&v));
        assert(lines_view(r@) =~= seq![tooltip_raw_line(self.tip@)]);
        r
    }
}

pub open spec fn tooltip_wrap_width(width: u16) -> usize {
    let w: int = if width < 1 {
        1
    } else {
        width as int
    };
    let rest = w - display_width("  "@);
    if rest < 1 {
        1
    } else {
        rest as usize
    }
}

pub open spec fn tooltip_raw_line(tip: Seq<char>) -> Seq<SpanView> {
    text_line("Tip: "@ + tip)
}

// ---------------------------------------------------------------------------------------
// Plain cards
// ---------------------------------------------------------------------------------------

/// A card of fixed lines.
#[derive(Debug)]
pub struct PlainHistoryCell {
    pub lines: Vec<Line>,
}

fn clone_lines(lines: &Vec<Line>) -> (r: Vec<Line>)
    ensures
        lines_view(r@) == lines_view(lines@),
{
    let mut r: Vec<Line> = Vec::new();
    for i in 0..lines.len()
        invariant
            r.len() == i,
            forall|k: int| 0 <= k < i ==> (#[trigger] r@[k])@ == lines@[k]@,
    {
        r.push(lines[i].clone());
    }
    assert(lines_view(r@) =~= lines_view(lines@));
    r
}

/// Startup metadata, including prior-session summaries and available usage resets.
#[derive(Debug)]
pub struct SessionNoticeCell(pub PlainHistoryCell);


// ---------------------------------------------------------------------------------------
// The session header
// ---------------------------------------------------------------------------------------

/// Session banner with a model label already resolved for presentation by its caller.
/// `home` is the user's home directory, against which the working directory is shown.
#[derive(Debug)]
pub struct SessionHeaderHistoryCell {
    pub version: String,
    pub model: String,
    pub reasoning_effort: Option<ReasoningEffort>,
    pub directory: String,
    pub home: Option<String>,
    /// The platform's path separator.
    pub separator: char,
    pub yolo_mode: bool,
    /// The greeting slot the header is bound to, if any.
    pub greeting: Option<GreetingSlot>,
}

pub struct HeaderView {
    pub version: Seq<char>,
    pub model: Seq<char>,
    pub reasoning_effort: Option<ReasoningEffort>,
    pub directory: Seq<char>,
    pub home: Option<Seq<char>>,
    pub separator: char,
    pub yolo_mode: bool,
    pub greeting: Option<GreetingSlot>,
}

impl View for SessionHeaderHistoryCell {
    type V = HeaderView;

    open spec fn view(&self) -> HeaderView {
        HeaderView {
            version: self.version@,
            model: self.model@,
            reasoning_effort: self.reasoning_effort,
            directory: self.directory@,
            home: opt_string_view(self.home),
            separator: self.separator,
            yolo_mode: self.yolo_mode,
            greeting: self.greeting,
        }
    }
}

pub open spec fn sat_sub(a: usize, b: usize) -> usize {
    if a >= b {
        (a - b) as usize
    } else {
        0
    }
}

/// The header's lines before they are cut to the width: a blank line, the title, the
/// directory, the YOLO notice when it applies, and the greeting when there is one.
pub open spec fn header_lines_spec(
    h: HeaderView,
    greeting: Option<Seq<char>>,
    width: usize,
) -> Seq<Seq<SpanView>> {
    let base = seq![
        Seq::<SpanView>::empty(),
        seq![span("  "@, plain())] + codex_title_spec(h.version),
        seq![
            span("     "@, plain()),
            span(format_directory_spec(h.directory, h.home, h.separator, Some(sat_sub(width, 5))), dim()),
        ],
    ];
    let yolo = if h.yolo_mode {
        seq![seq![span("  permissions: "@, dim()), span("YOLO mode"@, magenta_bold())]]
    } else {
        Seq::empty()
    };
    let greeting_lines = match greeting {
        Some(p) => seq![Seq::<SpanView>::empty(), seq![span("  "@, plain()), span(p, accent())]],
        None => Seq::empty(),
    };
    base + yolo + greeting_lines
}

/// The header as displayed at `width` columns: each line cut to the width.
pub open spec fn header_display_spec(
    h: HeaderView,
    greeting: Option<Seq<char>>,
    width: u16,
) -> Seq<Seq<SpanView>> {
    header_lines_spec(h, greeting, width as usize).map_values(
        |l: Seq<SpanView>| truncate_spec(l, width as nat),
    )
}

/// The header as plain text lines.
pub open spec fn header_raw_spec(h: HeaderView, greeting: Option<Seq<char>>) -> Seq<
    Seq<SpanView>,
> {
    if greeting is Some {
        header_display_spec(h, greeting, u16::MAX).map_values(
            |l: Seq<SpanView>| text_line(line_display_text(l)),
        )
    } else {
        let reasoning = match h.reasoning_effort {
            Some(e) => " "@ + effort_label(e),
            None => Seq::empty(),
        };
        seq![
            text_line("OpenAI Codex (v"@ + h.version + ")"@),
            text_line("model: "@ + h.model + reasoning),
            text_line("directory: "@ + format_directory_spec(h.directory, h.home, h.separator, None)),
        ] + if h.yolo_mode {
            seq![text_line("permissions: YOLO mode"@)]
        } else {
            Seq::empty()
        }
    }
}

impl SessionHeaderHistoryCell {
    pub fn new(
        model: String,
        reasoning_effort: Option<ReasoningEffort>,
        directory: String,
        version: String,
        home: Option<String>,
    ) -> (r: Self)
        ensures
            r@ == (HeaderView {
                version: version@,
                model: model@,
                reasoning_effort,
                directory: directory@,
                home: opt_string_view(home),
                separator: r.separator,
                yolo_mode: false,
                greeting: None,
            }),
            r.separator == '/' || r.separator == '\\',
    {
        SessionHeaderHistoryCell {
            version,
            model,
            reasoning_effort,
            directory,
            home,
            separator: main_separator(),
            yolo_mode: false,
            greeting: None,
        }
    }

    pub fn with_yolo_mode(self, yolo_mode: bool) -> (r: Self)
        ensures
            r@ == (HeaderView { yolo_mode, ..self@ }),
    {
        let mut s = self;
        s.yolo_mode = yolo_mode;
        s
    }

    pub fn format_directory(&self, max_width: Option<usize>) -> (r: String)
        ensures
            r@ == format_directory_spec(
                self.directory@,
                opt_string_view(self.home),
                self.separator,
                max_width,
            ),
    {
        let home = match &self.home {
            Some(h) => Some(h.as_str()),
            None => None,
        };
        Self::format_directory_with(self.directory.as_str(), home, self.separator, max_width)
    }

    /// `directory` relative to `home` (`~`, or `~` and the platform's separator before the
    /// rest), cut in the middle to `max_width` columns when it is wider, and empty when
    /// there is no room at all.
    pub fn format_directory_inner(directory: &str, home: Option<&str>, max_width: Option<usize>) -> (r:
        String)
        ensures
            exists|separator: char|
                #[trigger] path_separator(separator) && r@ == format_directory_spec(
                    directory@,
                    opt_str_view(home),
                    separator,
                    max_width,
                ),
    {
        let separator = main_separator();
        let r = Self::format_directory_with(directory, home, separator, max_width);
        assert(path_separator(separator));
        r
    }

    /// `directory` relative to `home`, with `separator` after the `~`, cut in the middle to
    /// `max_width` columns when it is wider, and empty when there is no room at all.
    pub fn format_directory_with(
        directory: &str,
        home: Option<&str>,
        separator: char,
        max_width: Option<usize>,
    ) -> (r: String)
        ensures
            r@ == format_directory_spec(
                directory@,
                match home {
                    Some(h) => Some(h@),
                    None => None,
                },
                separator,
                max_width,
            ),
    {
        let relative = match home {
            Some(h) => strip_home(directory, h),
            None => None,
        };
        let mut formatted: Vec<char> = Vec::new();
        match relative {
            Some(rel) => {
                formatted.push('~');
                if !rel.as_str().is_empty() {
                    formatted.push(separator);
                    push_str(&mut formatted, rel.as_str());
                    assert(formatted@ =~= seq!['~', separator] + rel@);
                } else {
                    assert(formatted@ =~= seq!['~']);
                }
            },
            None => {
                push_str(&mut formatted, directory);
            },
        }
        let ghost home_view = match home {
            Some(h) => Some(h@),
            None => None,
        };
        assert(formatted@ == home_relative_spec(directory@, home_view, separator));
        if let Some(max_width) = max_width {
            if max_width == 0 {
                let r = String::new();
                assert(r@ =~= Seq::<char>::empty());
                return r;
            }
            if span_width(string_of(&formatted).as_str()) > max_width {
                return string_of(&center_truncate(&formatted, max_width));
            }
        }
        string_of(&formatted)
    }

    pub fn reasoning_label(&self) -> (r: Option<&'static str>)
        ensures
            match self.reasoning_effort {
                Some(e) => r matches Some(l) && l@ == effort_label(e),
                None => r is None,
            },
    {
        match &self.reasoning_effort {
            Some(e) => Some(e.as_str()),
            None => None,
        }
    }

    /// The header's lines at `width` columns.
    /// The header at `width` columns, showing the greeting its slot holds in `slots`.
    pub fn display_lines(&self, width: u16, slots: &GreetingSlots) -> (r: Vec<Line>)
        ensures
            lines_view(r@) == header_display_spec(self@, bound_greeting(slots@, self.greeting), width),
            forall|i: int| 0 <= i < r.len() ==> line_width(#[trigger] r@[i]@) <= width,
    {
        let w = width as usize;
        let mut lines: Vec<Line> = Vec::new();
        let blank = Line { spans: Vec::new() };
        assert(blank@ =~= Seq::<SpanView>::empty());
        lines.push(blank);
        let mut title: Vec<Span> = Vec::new();
        title.push(plain_span("  "));
        let mut brand = codex_title(self.version.as_str());
        let ghost brand_view = brand@;
        title.append(&mut brand);
        let title_line = Line { spans: title };
        assert(title_line@ =~= seq![span("  "@, plain())] + codex_title_spec(self.version@)) by {
            assert(title_line.spans@ =~= seq![title_line.spans@[0]] + brand_view);
        }
        lines.push(title_line);
        let mut directory_line: Vec<Span> = Vec::new();
        directory_line.push(plain_span("     "));
        let dir_width = if w >= 5 {
            w - 5
        } else {
            0
        };
        let directory = self.format_directory(Some(dir_width));
        directory_line.push(Span { content: directory, style: Style::dimmed() });
        let dir_line = Line { spans: directory_line };
        assert(dir_line@ =~= seq![
            span("     "@, plain()),
            span(format_directory_spec(self@.directory, self@.home, self@.separator, Some(sat_sub(w, 5))), dim()),
        ]);
        lines.push(dir_line);
        let ghost base = lines_view(lines@);
        assert(base =~= seq![
            Seq::<SpanView>::empty(),
            seq![span("  "@, plain())] + codex_title_spec(self@.version),
            seq![
                span("     "@, plain()),
                span(format_directory_spec(self@.directory, self@.home, self@.separator, Some(sat_sub(w, 5))), dim()),
            ],
        ]);
        if self.yolo_mode {
            let mut yolo: Vec<Span> = Vec::new();
            yolo.push(dim_span("  permissions: "));
            yolo.push(Span::styled("YOLO mode", Style { fg: Some(Color::Magenta), bold: true, dim: false }));
            let yolo_line = Line { spans: yolo };
            assert(yolo_line@ =~= seq![span("  permissions: "@, dim()), span("YOLO mode"@, magenta_bold())]);
            lines.push(yolo_line);
        }
        let ghost with_yolo = lines_view(lines@);
        let chosen = match self.greeting {
            Some(slot) => slots.get(slot),
            None => None,
        };
        let ghost gv = bound_greeting(slots@, self.greeting);
        assert(greeting_view(chosen) == gv);
        if let Some(greeting) = &chosen {
            let blank = Line { spans: Vec::new() };
            assert(blank@ =~= Seq::<SpanView>::empty());
            lines.push(blank);
            let mut g: Vec<Span> = Vec::new();
            g.push(plain_span("  "));
            g.push(Span { content: greeting.phrase.clone(), style: Style { fg: Some(Color::Accent), bold: false, dim: false } });
            let g_line = Line { spans: g };
            assert(g_line@ =~= seq![span("  "@, plain()), span(greeting.phrase@, accent())]);
            lines.push(g_line);
            assert(lines_view(lines@) =~= with_yolo + seq![
                Seq::<SpanView>::empty(),
                seq![span("  "@, plain()), span(greeting.phrase@, accent())],
            ]);
        } else {
            assert(lines_view(lines@) =~= with_yolo + Seq::<Seq<SpanView>>::empty());
        }
        let ghost lv = lines_view(lines@);
        assert(lv =~= header_lines_spec(self@, gv, w));
        let mut out: Vec<Line> = Vec::new();
        for i in 0..lines.len()
            invariant
                lv == lines_view(lines@),
                w == width as usize,
                out.len() == i,
                forall|k: int| 0 <= k < i ==> (#[trigger] out@[k])@ == truncate_spec(lv[k], width as nat),
                forall|k: int| 0 <= k < i ==> line_width(#[trigger] out@[k]@) <= width,
        {
            assert(lv[i as int] == lines@[i as int]@);
            out.push(truncate_line(&lines[i], w));
        }
        assert(lines_view(out@) =~= header_display_spec(self@, gv, width));
        out
    }

    /// The header as plain text lines.
    pub fn raw_lines(&self, slots: &GreetingSlots) -> (r: Vec<Line>)
        ensures
            lines_view(r@) == header_raw_spec(self@, bound_greeting(slots@, self.greeting)),
    {
        let ghost gv = bound_greeting(slots@, self.greeting);
        let chosen = match self.greeting {
            Some(slot) => slots.get(slot),
            None => None,
        };
        if chosen.is_some() {
            let shown = self.display_lines(u16::MAX, slots);
            let ghost sv = lines_view(shown@);
            let mut out: Vec<Line> = Vec::new();
            for i in 0..shown.len()
                invariant
                    sv == lines_view(shown@),
                    out.len() == i,
                    forall|k: int|
                        0 <= k < i ==> (#[trigger] out@[k])@ == text_line(line_display_text(sv[k])),
            {
                assert(sv[i as int] == shown@[i as int]@);
                out.push(text_line_of(&display_text(&shown[i])));
            }
            assert(lines_view(out@) =~= header_raw_spec(self@, gv));
            return out;
        }
        let mut out: Vec<Line> = Vec::new();
        let mut title: Vec<char> = Vec::new();
        push_str(&mut title, "OpenAI Codex (v");
        push_str(&mut title, self.version.as_str());
        push_str(&mut title, ")");
        out.push(text_line_of(&title));
        let mut model: Vec<char> = Vec::new();
        push_str(&mut model, "model: ");
        push_str(&mut model, self.model.as_str());
        if let Some(reasoning) = self.reasoning_label() {
            push_str(&mut model, " ");
            push_str(&mut model, reasoning);
        }
        out.push(text_line_of(&model));
        let mut directory: Vec<char> = Vec::new();
        push_str(&mut directory, "directory: ");
        push_str(&mut directory, self.format_directory(None).as_str());
        out.push(text_line_of(&directory));
        let ghost reasoning = match self@.reasoning_effort {
            Some(e) => " "@ + effort_label(e),
            None => Seq::empty(),
        };
        assert(title@ =~= "OpenAI Codex (v"@ + self@.version + ")"@);
        assert(model@ =~= "model: "@ + self@.model + reasoning);
        assert(directory@ =~= "directory: "@ + format_directory_spec(self@.directory, self@.home, self@.separator, None));
        let ghost first = lines_view(out@);
        assert(first =~= seq![
            text_line("OpenAI Codex (v"@ + self@.version + ")"@),
            text_line("model: "@ + self@.model + reasoning),
            text_line("directory: "@ + format_directory_spec(self@.directory, self@.home, self@.separator, None)),
        ]);
        if self.yolo_mode {
            out.push(text_line_of(&chars_of("permissions: YOLO mode")));
            assert(lines_view(out@) =~= first + seq![text_line("permissions: YOLO mode"@)]);
        } else {
            assert(lines_view(out@) =~= first + Seq::<Seq<SpanView>>::empty());
        }
        assert(lines_view(out@) =~= header_raw_spec(self@, gv));
        out
    }
}


// ---------------------------------------------------------------------------------------
// Bordered cards
// ---------------------------------------------------------------------------------------

/// The width of the widest line.
pub open spec fn max_line_width(lines: Seq<Seq<SpanView>>) -> nat
    decreases lines.len(),
{
    if lines.len() == 0 {
        0
    } else {
        let m = max_line_width(lines.drop_last());
        let w = line_width(lines.last());
        if m >= w {
            m
        } else {
            w
        }
    }
}

/// The width inside the border: `inner_width`, or the widest line when that is wider.
pub open spec fn content_width(lines: Seq<Seq<SpanView>>, inner_width: nat) -> nat {
    let m = max_line_width(lines);
    if inner_width >= m {
        inner_width
    } else {
        m
    }
}

/// A line inside the border: `│ `, the line, padding to the content width, ` │`.
pub open spec fn border_row(line: Seq<SpanView>, width: nat) -> Seq<SpanView> {
    let used = line_width(line);
    seq![span("│ "@, dim())] + line + (if used < width {
        seq![span(repeat(' ', (width - used) as nat), dim())]
    } else {
        Seq::empty()
    }) + seq![span(" │"@, dim())]
}

/// A horizontal edge of the border.
pub open spec fn border_edge(left: char, right: char, width: nat) -> Seq<SpanView> {
    seq![span(seq![left] + repeat('─', width + 2) + seq![right], dim())]
}

/// `lines` inside a border whose inner width is at least `inner_width`.
pub open spec fn bordered_spec(lines: Seq<Seq<SpanView>>, inner_width: nat) -> Seq<Seq<SpanView>> {
    let w = content_width(lines, inner_width);
    seq![border_edge('╭', '╮', w)] + lines.map_values(|l: Seq<SpanView>| border_row(l, w)) + seq![
        border_edge('╰', '╯', w),
    ]
}

/// The border's widths fit in the machine's integers.
pub open spec fn border_fits(lines: Seq<Seq<SpanView>>, inner_width: usize) -> bool {
    &&& inner_width <= usize::MAX - 2
    &&& forall|i: int| 0 <= i < lines.len() ==> line_width(#[trigger] lines[i]) <= usize::MAX - 2
}

proof fn lemma_max_line_width_bound(lines: Seq<Seq<SpanView>>, bound: nat)
    requires
        forall|i: int| 0 <= i < lines.len() ==> line_width(#[trigger] lines[i]) <= bound,
    ensures
        max_line_width(lines) <= bound,
        forall|i: int| 0 <= i < lines.len() ==> line_width(#[trigger] lines[i]) <= max_line_width(lines),
    decreases lines.len(),
{
    if lines.len() > 0 {
        let rest = lines.drop_last();
        assert forall|i: int| 0 <= i < rest.len() implies line_width(#[trigger] rest[i]) <= bound by {
            assert(rest[i] == lines[i]);
        }
        lemma_max_line_width_bound(rest, bound);
        assert forall|i: int| 0 <= i < lines.len() implies line_width(#[trigger] lines[i])
            <= max_line_width(lines) by {
            if i < rest.len() {
                assert(rest[i] == lines[i]);
            }
        }
    }
}

fn border_edge_line(left: char, right: char, width: usize) -> (r: Line)
    requires
        width <= usize::MAX - 2,
        narrow_char(left),
        narrow_char(right),
    ensures
        r@ == border_edge(left, right, width as nat),
        line_width(r@) == width + 4,
{
    let mut v: Vec<char> = Vec::new();
    v.push(left);
    push_repeat(&mut v, '─', width + 2);
    v.push(right);
    assert(v@ =~= seq![left] + repeat('─', (width + 2) as nat) + seq![right]);
    let edge = Span::from_chars(&v, Style { fg: None, bold: false, dim: true });
    let edge_width = span_width(edge.content.as_str());
    assert(narrow_text(v@)) by {
        assert forall|i: int| 0 <= i < v@.len() implies narrow_char(#[trigger] v@[i]) by {
            if 0 < i < v@.len() - 1 {
                assert(v@[i] == '─');
            }
        }
    }
    let mut spans: Vec<Span> = Vec::new();
    spans.push(edge);
    let r = Line { spans };
    assert(r@ =~= border_edge(left, right, width as nat));
    proof {
        lemma_line_width_single(r@[0]);
        assert(r@ =~= seq![r@[0]]);
    }
    r
}

/// A bordered row is as wide as the content and the border's four columns.
proof fn lemma_border_row_width(line: Seq<SpanView>, width: nat)
    requires
        line_width(line) <= width,
        display_width("│ "@) == 2,
        display_width(" │"@) == 2,
        line_width(line) < width ==> display_width(repeat(' ', (width - line_width(line)) as nat))
            == width - line_width(line),
    ensures
        line_width(border_row(line, width)) == width + 4,
{
    let used = line_width(line);
    let left = span("│ "@, dim());
    let right = span(" │"@, dim());
    lemma_line_width_single(left);
    lemma_line_width_single(right);
    let pad: Seq<SpanView> = if used < width {
        seq![span(repeat(' ', (width - used) as nat), dim())]
    } else {
        Seq::empty()
    };
    if used < width {
        lemma_line_width_single(pad[0]);
        assert(pad =~= seq![pad[0]]);
    }
    lemma_line_width_concat(seq![left], line);
    lemma_line_width_concat(seq![left] + line, pad);
    lemma_line_width_concat(seq![left] + line + pad, seq![right]);
}

/// Render `lines` inside a border whose inner width is at least `inner_width`.
///
/// This is useful when callers have already clamped their content to a
/// specific width and want the border math centralized here instead of
/// duplicating padding logic in the TUI widgets themselves.
pub fn with_border_with_inner_width(lines: Vec<Line>, inner_width: usize) -> (r: Vec<Line>)
    requires
        border_fits(lines_view(lines@), inner_width),
    ensures
        lines_view(r@) == bordered_spec(lines_view(lines@), inner_width as nat),
        forall|i: int|
            0 <= i < r.len() ==> line_width(#[trigger] r@[i]@) == content_width(
                lines_view(lines@),
                inner_width as nat,
            ) + 4,
{
    let ghost lv = lines_view(lines@);
    let left_bar = span_width("│ ");
    let right_bar = span_width(" │");
    proof {
        reveal_strlit("│ ");
        reveal_strlit(" │");
        assert(narrow_text("│ "@));
        assert(narrow_text(" │"@));
    }
    proof {
        lemma_max_line_width_bound(lv, (usize::MAX - 2) as nat);
    }
    let mut widths: Vec<usize> = Vec::new();
    let mut max_width: usize = 0;
    for i in 0..lines.len()
        invariant
            lv == lines_view(lines@),
            border_fits(lv, inner_width),
            widths.len() == i,
            forall|k: int| 0 <= k < i ==> widths@[k] == line_width(#[trigger] lv[k]),
            max_width == max_line_width(lv.take(i as int)),
    {
        assert(lv[i as int] == lines@[i as int]@);
        assert(line_width(lv[i as int]) <= usize::MAX - 2);
        let w = match line_width_within(&lines[i], usize::MAX - 2) {
            Some(w) => w,
            None => 0,
        };
        assert(lv.take(i + 1).drop_last() =~= lv.take(i as int));
        if w > max_width {
            max_width = w;
        }
        widths.push(w);
    }
    assert(lv.take(lines.len() as int) =~= lv);
    let inner = if inner_width >= max_width {
        inner_width
    } else {
        max_width
    };
    let ghost cw = inner as nat;
    assert(cw == content_width(lv, inner_width as nat));
    let mut out: Vec<Line> = Vec::new();
    assert(narrow_char('╭') && narrow_char('╮') && narrow_char('╰') && narrow_char('╯'));
    out.push(border_edge_line('╭', '╮', inner));
    let mut lines = lines;
    let mut i: usize = 0;
    let n = lines.len();
    while i < n
        invariant
            n == lv.len(),
            widths.len() == n,
            forall|k: int| 0 <= k < n ==> widths@[k] == line_width(#[trigger] lv[k]),
            inner as nat == cw,
            lines.len() == n - i,
            forall|k: int| 0 <= k < n - i ==> (#[trigger] lines@[k])@ == lv[k + i],
            i <= n,
            out.len() == i + 1,
            lines_view(out@) == seq![border_edge('╭', '╮', cw)] + lv.take(i as int).map_values(
                |l: Seq<SpanView>| border_row(l, cw),
            ),
            forall|k: int| 0 <= k < out.len() ==> line_width(#[trigger] out@[k]@) == cw + 4,
            display_width("│ "@) == 2,
            display_width(" │"@) == 2,
            inner <= usize::MAX - 2,
            max_line_width(lv) <= cw,
            forall|k: int| 0 <= k < lv.len() ==> line_width(#[trigger] lv[k]) <= max_line_width(lv),
        decreases n - i,
    {
        let line = lines.remove(0);
        assert(line@ == lv[i as int]);
        let used = widths[i];
        let mut spans: Vec<Span> = Vec::new();
        spans.push(Span::styled("│ ", Style { fg: None, bold: false, dim: true }));
        let mut shown = line.spans;
        let ghost shown_view = shown@;
        spans.append(&mut shown);
        if used < inner {
            let mut pad: Vec<char> = Vec::new();
            push_repeat(&mut pad, ' ', inner - used);
            let padding = Span::from_chars(&pad, Style { fg: None, bold: false, dim: true });
            let pad_width = span_width(padding.content.as_str());
            assert(narrow_text(pad@)) by {
                assert forall|k: int| 0 <= k < pad@.len() implies narrow_char(#[trigger] pad@[k]) by {
                    assert(pad@[k] == ' ');
                }
            }
            spans.push(padding);
        }
        spans.push(Span::styled(" │", Style { fg: None, bold: false, dim: true }));
        let row = Line { spans };
        assert(row@ =~= border_row(lv[i as int], cw));
        proof {
            lemma_border_row_width(lv[i as int], cw);
        }
        let ghost prev = lines_view(out@);
        let ghost row_view = row@;
        out.push(row);
        assert(lines_view(out@) =~= prev.push(row_view));
        proof {
            assert(lv.take(i + 1).map_values(|l: Seq<SpanView>| border_row(l, cw)) =~= lv.take(
                i as int,
            ).map_values(|l: Seq<SpanView>| border_row(l, cw)).push(border_row(lv[i as int], cw)));
        }
        assert(lines_view(out@) =~= seq![border_edge('╭', '╮', cw)] + lv.take(i + 1).map_values(
            |l: Seq<SpanView>| border_row(l, cw),
        ));
        assert forall|k: int| 0 <= k < n - (i + 1) implies (#[trigger] lines@[k])@ == lv[k + i + 1] by {
        }
        i += 1;
    }
    out.push(border_edge_line('╰', '╯', inner));
    assert(lv.take(n as int) =~= lv);
    assert(lines_view(out@) =~= bordered_spec(lv, inner_width as nat));
    out
}

/// The border of `lines` at inner width `inner_width`, or `None` when a width does not fit
/// in the machine's integers.
pub fn with_border(lines: Vec<Line>, inner_width: usize) -> (r: Option<Vec<Line>>)
    ensures
        match r {
            Some(v) => border_fits(lines_view(lines@), inner_width) && lines_view(v@)
                == bordered_spec(lines_view(lines@), inner_width as nat),
            None => !border_fits(lines_view(lines@), inner_width),
        },
{
    let ghost lv = lines_view(lines@);
    if inner_width > usize::MAX - 2 {
        return None;
    }
    for i in 0..lines.len()
        invariant
            lv == lines_view(lines@),
            forall|k: int| 0 <= k < i ==> line_width(#[trigger] lv[k]) <= usize::MAX - 2,
    {
        assert(lv[i as int] == lines@[i as int]@);
        if line_width_within(&lines[i], usize::MAX - 2).is_none() {
            return None;
        }
    }
    Some(with_border_with_inner_width(lines, inner_width))
}


// ---------------------------------------------------------------------------------------
// History cells and the session card
// ---------------------------------------------------------------------------------------

/// A card of the transcript.
#[derive(Debug)]
pub enum HistoryCell {
    Plain(PlainHistoryCell),
    Notice(SessionNoticeCell),
    Tooltip(TooltipHistoryCell),
    Header(SessionHeaderHistoryCell),
    Info(SessionInfoCell),
}

/// A card made of other cards, shown one after another.
#[derive(Debug)]
pub struct CompositeHistoryCell {
    pub parts: Vec<HistoryCell>,
}

/// The startup card: the session header and what follows it.
#[derive(Debug)]
pub struct SessionInfoCell(pub CompositeHistoryCell);

/// What a card is.
pub enum HistoryCellView {
    Plain(Seq<Seq<SpanView>>),
    Notice(Seq<Seq<SpanView>>),
    /// A tip and the working directory it was made in.
    Tooltip(Seq<char>, Seq<char>),
    Header(HeaderView),
    Info(Seq<HistoryCellView>),
}

pub open spec fn cell_view(c: HistoryCell) -> HistoryCellView
    decreases c,
{
    match c {
        HistoryCell::Plain(p) => HistoryCellView::Plain(lines_view(p.lines@)),
        HistoryCell::Notice(n) => HistoryCellView::Notice(lines_view(n.0.lines@)),
        HistoryCell::Tooltip(t) => HistoryCellView::Tooltip(t.tip@, t.cwd@),
        HistoryCell::Header(h) => HistoryCellView::Header(h@),
        HistoryCell::Info(info) => HistoryCellView::Info(
            Seq::new(
                info.0.parts@.len(),
                |i: int|
                    if 0 <= i < info.0.parts@.len() {
                        cell_view(info.0.parts@[i])
                    } else {
                        HistoryCellView::Plain(Seq::empty())
                    },
            ),
        ),
    }
}

/// Every session header of a card, at any depth, bound to `greeting`.
pub open spec fn with_greeting(c: HistoryCellView, greeting: Option<GreetingSlot>) -> HistoryCellView
    decreases c,
{
    match c {
        HistoryCellView::Header(h) => HistoryCellView::Header(HeaderView { greeting, ..h }),
        HistoryCellView::Info(parts) => HistoryCellView::Info(
            Seq::new(
                parts.len(),
                |i: int|
                    if 0 <= i < parts.len() {
                        with_greeting(parts[i], greeting)
                    } else {
                        HistoryCellView::Plain(Seq::empty())
                    },
            ),
        ),
        _ => c,
    }
}

/// Bind provisional and configured banners to the thread's greeting slot: every session
/// header of `cell`, at any depth, then shows what the slot holds, whenever it is chosen.
pub fn set_session_greeting(cell: &mut HistoryCell, greeting: GreetingSlot)
    ensures
        cell_view(*final(cell)) == with_greeting(cell_view(*old(cell)), Some(greeting)),
    decreases *old(cell),
{
    let ghost old_cell = *cell;
    match cell {
        HistoryCell::Header(header) => {
            header.greeting = Some(greeting);
        },
        HistoryCell::Info(info) => {
            let ghost old_info = *info;
            assert(old_cell == HistoryCell::Info(old_info));
            let ghost old_parts = info.0.parts@;
            let n = info.0.parts.len();
            for i in 0..n
                invariant
                    old_cell == *old(cell),
                    old_cell == HistoryCell::Info(old_info),
                    old_parts == old_info.0.parts@,
                    n == info.0.parts.len(),
                    n == old_parts.len(),
                    forall|k: int| i <= k < n ==> info.0.parts@[k] == old_parts[k],
                    forall|k: int|
                        0 <= k < i ==> cell_view(#[trigger] info.0.parts@[k]) == with_greeting(
                            cell_view(old_parts[k]),
                            Some(greeting),
                        ),
            {
                assert(decreases_to!(old_cell => old_cell->Info_0));
                assert(decreases_to!(old_info => old_info.0));
                assert(decreases_to!(old_info.0 => old_info.0.parts));
                assert(decreases_to!(old_info.0.parts => old_info.0.parts@));
                assert(decreases_to!(old_info.0.parts@ => old_info.0.parts@[i as int]));
                set_session_greeting(&mut info.0.parts[i], greeting);
            }
            let ghost a = cell_view(HistoryCell::Info(*info));
            let ghost b = with_greeting(cell_view(old_cell), Some(greeting));
            assert(a->Info_0 =~= b->Info_0);
        },
        _ => {},
    }
}

/// How the transcript renders.
#[derive(PartialEq, Eq, Structural, Clone, Copy, Debug)]
pub enum HistoryRenderMode {
    Rich,
    Plain,
}

pub open spec fn unlinked(lines: Seq<Seq<SpanView>>) -> Seq<HyperlinkLineView> {
    lines.map_values(|l: Seq<SpanView>| HyperlinkLineView { line: l, source: None })
}

/// The lines a single card shows in the fullscreen transcript: its display lines. A tip
/// shows its plain line.
pub open spec fn leaf_lines(
    c: HistoryCellView,
    greetings: Seq<Option<Seq<char>>>,
    width: u16,
) -> Seq<HyperlinkLineView> {
    match c {
        HistoryCellView::Plain(lines) => unlinked(lines),
        HistoryCellView::Notice(lines) => unlinked(lines),
        HistoryCellView::Tooltip(tip, _) => unlinked(seq![tooltip_raw_line(tip)]),
        HistoryCellView::Header(h) => unlinked(
            header_display_spec(h, bound_greeting(greetings, h.greeting), width),
        ),
        HistoryCellView::Info(_) => Seq::empty(),
    }
}

pub open spec fn blank_line() -> HyperlinkLineView {
    HyperlinkLineView { line: Seq::empty(), source: None }
}

/// Groups of lines one after another, a blank line between each two non-empty groups;
/// empty groups add nothing.
pub open spec fn join_groups(groups: Seq<Seq<HyperlinkLineView>>) -> Seq<HyperlinkLineView>
    decreases groups.len(),
{
    if groups.len() == 0 {
        Seq::empty()
    } else {
        let prev = join_groups(groups.drop_last());
        let g = groups.last();
        if g.len() == 0 {
            prev
        } else if prev.len() == 0 {
            g
        } else {
            prev + seq![blank_line()] + g
        }
    }
}

/// The fullscreen transcript lines of a card: a session card shows its parts other than
/// tips, a blank line between each two that show something.
pub open spec fn fullscreen_spec(
    c: HistoryCellView,
    greetings: Seq<Option<Seq<char>>>,
    width: u16,
) -> Seq<HyperlinkLineView>
    decreases c,
{
    match c {
        HistoryCellView::Info(parts) => join_groups(part_groups(parts, greetings, width)),
        _ => leaf_lines(c, greetings, width),
    }
}

/// The fullscreen lines of each part of a session card; a tip shows nothing.
pub open spec fn part_groups(
    parts: Seq<HistoryCellView>,
    greetings: Seq<Option<Seq<char>>>,
    width: u16,
) -> Seq<Seq<HyperlinkLineView>>
    decreases parts,
{
    Seq::new(
        parts.len(),
        |i: int|
            if 0 <= i < parts.len() && !(parts[i] is Tooltip) {
                fullscreen_spec(parts[i], greetings, width)
            } else {
                Seq::empty()
            },
    )
}

pub open spec fn hyperlink_lines_view(v: Seq<HyperlinkLine>) -> Seq<HyperlinkLineView> {
    v.map_values(|l: HyperlinkLine| l@)
}

fn unlinked_lines(lines: Vec<Line>) -> (r: Vec<HyperlinkLine>)
    ensures
        hyperlink_lines_view(r@) == unlinked(lines_view(lines@)),
{
    let ghost lv = lines_view(lines@);
    let mut lines = lines;
    let mut r: Vec<HyperlinkLine> = Vec::new();
    let n = lines.len();
    let mut i: usize = 0;
    while i < n
        invariant
            n == lv.len(),
            i <= n,
            lines.len() == n - i,
            forall|k: int| 0 <= k < n - i ==> (#[trigger] lines@[k])@ == lv[k + i],
            hyperlink_lines_view(r@) == unlinked(lv.take(i as int)),
        decreases n - i,
    {
        let line = lines.remove(0);
        assert(line@ == lv[i as int]);
        let ghost prev = hyperlink_lines_view(r@);
        r.push(HyperlinkLine { line, source: None });
        assert(hyperlink_lines_view(r@) =~= prev.push(HyperlinkLineView { line: lv[i as int], source: None }));
        assert(unlinked(lv.take(i + 1)) =~= unlinked(lv.take(i as int)).push(
            HyperlinkLineView { line: lv[i as int], source: None },
        ));
        assert forall|k: int| 0 <= k < n - (i + 1) implies (#[trigger] lines@[k])@ == lv[k + i + 1] by {
        }
        i += 1;
    }
    assert(lv.take(n as int) =~= lv);
    r
}

/// Fullscreen transcript presentation omits tips; scrollback retains the original cells.
/// Every other card shows its display lines, whatever the detail and render mode.
pub fn fullscreen_session_lines(
    cell: &HistoryCell,
    width: u16,
    detailed: bool,
    mode: HistoryRenderMode,
    slots: &GreetingSlots,
) -> (r: Vec<HyperlinkLine>)
    ensures
        hyperlink_lines_view(r@) == fullscreen_spec(cell_view(*cell), slots@, width),
    decreases *cell,
{
    match cell {
        HistoryCell::Info(info) => {
            let ghost c = *cell;
            assert(c == HistoryCell::Info(*info));
            let ghost parts = info.0.parts@;
            let ghost pv = cell_view(*cell)->Info_0;
            assert(cell_view(c) == HistoryCellView::Info(pv));
            let ghost groups = part_groups(pv, slots@, width);
            let mut lines: Vec<HyperlinkLine> = Vec::new();
            for i in 0..info.0.parts.len()
                invariant
                    c == *cell,
                    c == HistoryCell::Info(*info),
                    parts == info.0.parts@,
                    pv.len() == parts.len(),
                    forall|k: int| 0 <= k < pv.len() ==> #[trigger] pv[k] == cell_view(parts[k]),
                    groups.len() == pv.len(),
                    forall|k: int|
                        0 <= k < pv.len() ==> #[trigger] groups[k] == if !(pv[k] is Tooltip) {
                            fullscreen_spec(pv[k], slots@, width)
                        } else {
                            Seq::<HyperlinkLineView>::empty()
                        },
                    hyperlink_lines_view(lines@) == join_groups(groups.take(i as int)),
            {
                assert(groups.take(i + 1).drop_last() =~= groups.take(i as int));
                assert(pv[i as int] == cell_view(parts[i as int]));
                let part = &info.0.parts[i];
                let is_tip = match part {
                    HistoryCell::Tooltip(_) => true,
                    _ => false,
                };
                assert(is_tip == (pv[i as int] is Tooltip));
                let ghost prev = hyperlink_lines_view(lines@);
                assert(prev == join_groups(groups.take(i as int)));
                assert(groups.take(i + 1).last() == groups[i as int]);
                if !is_tip {
                    assert(decreases_to!(c => c->Info_0));
                    assert(decreases_to!(c->Info_0 => c->Info_0.0));
                    assert(decreases_to!(c->Info_0.0 => c->Info_0.0.parts));
                    assert(decreases_to!(c->Info_0.0.parts => c->Info_0.0.parts@));
                    assert(decreases_to!(c->Info_0.0.parts@ => c->Info_0.0.parts@[i as int]));
                    let mut part_lines = fullscreen_session_lines(part, width, detailed, mode, slots);
                    let ghost added = hyperlink_lines_view(part_lines@);
                    assert(added == groups[i as int]);
                    if part_lines.len() > 0 {
                        if lines.len() > 0 {
                            let blank: Vec<Span> = Vec::new();
                            let blank_line_value = HyperlinkLine { line: Line { spans: blank }, source: None };
                            assert(blank_line_value.line@ =~= Seq::<SpanView>::empty());
                            assert(blank_line_value@ == blank_line());
                            lines.push(blank_line_value);
                            assert(hyperlink_lines_view(lines@) =~= prev + seq![blank_line()]);
                        } else {
                            assert(prev.len() == 0);
                        }
                        let ghost before = hyperlink_lines_view(lines@);
                        lines.append(&mut part_lines);
                        assert(hyperlink_lines_view(lines@) =~= before + added);
                    }
                    assert(hyperlink_lines_view(lines@) =~= join_groups(groups.take(i + 1)));
                } else {
                    assert(groups[i as int] == Seq::<HyperlinkLineView>::empty());
                    assert(hyperlink_lines_view(lines@) =~= join_groups(groups.take(i + 1)));
                }
            }
            assert(groups.take(pv.len() as int) =~= groups);
            assert(fullscreen_spec(cell_view(*cell), slots@, width) == join_groups(groups));
            lines
        },
        HistoryCell::Plain(p) => unlinked_lines(clone_lines(&p.lines)),
        HistoryCell::Notice(n) => unlinked_lines(clone_lines(&n.0.lines)),
        HistoryCell::Tooltip(t) => unlinked_lines(t.raw_lines()),
        HistoryCell::Header(h) => unlinked_lines(h.display_lines(width, slots)),
    }
}


// ---------------------------------------------------------------------------------------
// The startup card
// ---------------------------------------------------------------------------------------

/// The thread's session as the server reported it.
#[derive(Debug)]
pub struct ThreadSessionState {
    pub model: String,
    pub reasoning_effort: Option<ReasoningEffort>,
    pub approval_policy: AskForApproval,
    pub permission_profile: PermissionProfile,
}

/// Terminal preferences.
#[derive(Debug)]
pub struct TuiSettings {
    pub show_tooltips: bool,
}

/// Local preferences kept apart from the configuration.
#[derive(Debug)]
pub struct LocalSettings {
    pub tui: TuiSettings,
}

/// The commands a first conversation is introduced with.
pub open spec fn help_lines_spec() -> Seq<Seq<SpanView>> {
    seq![
        seq![span("  To get started, describe a task or try one of these commands:"@, dim())],
        Seq::empty(),
        seq![
            span("  "@, plain()),
            span("/init"@, plain()),
            span(" - create an AGENTS.md file with instructions for Codex"@, dim()),
        ],
        seq![
            span("  "@, plain()),
            span("/status"@, plain()),
            span(" - show current session configuration"@, dim()),
        ],
        seq![
            span("  "@, plain()),
            span("/permissions"@, plain()),
            span(" - choose what Codex is allowed to do"@, dim()),
        ],
        seq![
            span("  "@, plain()),
            span("/model"@, plain()),
            span(" - choose what model and reasoning effort to use"@, dim()),
        ],
        seq![
            span("  "@, plain()),
            span("/review"@, plain()),
            span(" - review any changes and find issues"@, dim()),
        ],
    ]
}

/// The notice shown when the server uses another model than the one requested.
pub open spec fn model_changed_spec(requested: Seq<char>, used: Seq<char>) -> Seq<Seq<SpanView>> {
    seq![
        seq![span("model changed:"@, magenta_bold())],
        text_line("requested: "@ + requested),
        text_line("used: "@ + used),
    ]
}

/// The parts of the startup card: the header; then the command help for a first event,
/// else the tip (when tips are shown and there is one), made in the header's directory, and
/// the model notice (when the model changed).
pub open spec fn session_parts_spec(
    header: HeaderView,
    is_first_event: bool,
    show_tooltips: bool,
    tip: Option<Seq<char>>,
    requested_model: Seq<char>,
    used_model: Seq<char>,
) -> Seq<HistoryCellView> {
    seq![HistoryCellView::Header(header)] + if is_first_event {
        seq![HistoryCellView::Plain(help_lines_spec())]
    } else {
        (if show_tooltips && tip is Some {
            seq![HistoryCellView::Tooltip(tip->Some_0, header.directory)]
        } else {
            Seq::empty()
        }) + if requested_model != used_model {
            seq![HistoryCellView::Plain(model_changed_spec(requested_model, used_model))]
        } else {
            Seq::empty()
        }
    }
}

fn help_line(command: &str, description: &str) -> (r: Line)
    ensures
        r@ == seq![span("  "@, plain()), span(command@, plain()), span(description@, dim())],
{
    let mut spans: Vec<Span> = Vec::new();
    spans.push(plain_span("  "));
    spans.push(plain_span(command));
    spans.push(dim_span(description));
    let r = Line { spans };
    assert(r@ =~= seq![span("  "@, plain()), span(command@, plain()), span(description@, dim())]);
    r
}

fn help_lines() -> (r: Vec<Line>)
    ensures
        lines_view(r@) == help_lines_spec(),
{
    let mut r: Vec<Line> = Vec::new();
    let mut intro: Vec<Span> = Vec::new();
    intro.push(dim_span("  To get started, describe a task or try one of these commands:"));
    let intro_line = Line { spans: intro };
    assert(intro_line@ =~= seq![
        span("  To get started, describe a task or try one of these commands:"@, dim()),
    ]);
    r.push(intro_line);
    let empty = Line { spans: Vec::new() };
    assert(empty@ =~= Seq::<SpanView>::empty());
    r.push(empty);
    r.push(help_line("/init", " - create an AGENTS.md file with instructions for Codex"));
    r.push(help_line("/status", " - show current session configuration"));
    r.push(help_line("/permissions", " - choose what Codex is allowed to do"));
    r.push(help_line("/model", " - choose what model and reasoning effort to use"));
    r.push(help_line("/review", " - review any changes and find issues"));
    assert(lines_view(r@) =~= help_lines_spec());
    r
}

fn model_changed_lines(requested: &str, used: &str) -> (r: Vec<Line>)
    ensures
        lines_view(r@) == model_changed_spec(requested@, used@),
{
    let mut r: Vec<Line> = Vec::new();
    let mut first: Vec<Span> = Vec::new();
    first.push(Span::styled("model changed:", Style { fg: Some(Color::Magenta), bold: true, dim: false }));
    let first_line = Line { spans: first };
    assert(first_line@ =~= seq![span("model changed:"@, magenta_bold())]);
    r.push(first_line);
    let mut req: Vec<char> = Vec::new();
    push_str(&mut req, "requested: ");
    push_str(&mut req, requested);
    r.push(text_line_of(&req));
    let mut use_line: Vec<char> = Vec::new();
    push_str(&mut use_line, "used: ");
    push_str(&mut use_line, used);
    r.push(text_line_of(&use_line));
    assert(lines_view(r@) =~= model_changed_spec(requested@, used@));
    r
}

/// The startup card of a thread. `fallback_tooltip` is the tip the tip catalog chose for
/// this session, shown unless `tooltip_override` names another; `version` is the CLI's
/// version and `home` the user's home directory, against which the working directory
/// is shown.
pub fn new_session_info(
    config: &Config,
    local_settings: &LocalSettings,
    requested_model: &str,
    model_display_name: &str,
    session: &ThreadSessionState,
    is_first_event: bool,
    tooltip_override: Option<String>,
    fallback_tooltip: Option<String>,
    version: &str,
    home: Option<String>,
) -> (r: SessionInfoCell)
    ensures
        exists|separator: char|
            #[trigger] path_separator(separator) && cell_view(HistoryCell::Info(r))
                == HistoryCellView::Info(
            session_parts_spec(
                HeaderView {
                    version: version@,
                    model: model_display_name@,
                    reasoning_effort: session.reasoning_effort,
                    directory: config.cwd@,
                    home: opt_string_view(home),
                    separator,
                    yolo_mode: yolo_spec(session.approval_policy, session.permission_profile),
                    greeting: None,
                },
                is_first_event,
                local_settings.tui.show_tooltips,
                if tooltip_override is Some {
                    opt_string_view(tooltip_override)
                } else {
                    opt_string_view(fallback_tooltip)
                },
                requested_model@,
                session.model@,
            ),
        ),
{
    let header = SessionHeaderHistoryCell::new(
        model_display_name.to_string(),
        session.reasoning_effort,
        config.cwd.clone(),
        version.to_string(),
        home,
    ).with_yolo_mode(has_yolo_permissions(session.approval_policy, &session.permission_profile));
    let ghost header_view = header@;
    let mut parts: Vec<HistoryCell> = Vec::new();
    parts.push(HistoryCell::Header(header));
    assert(parts@.map_values(|c: HistoryCell| cell_view(c)) =~= seq![
        HistoryCellView::Header(header_view),
    ]);
    let ghost tip_view = if tooltip_override is Some {
        opt_string_view(tooltip_override)
    } else {
        opt_string_view(fallback_tooltip)
    };
    let ghost expected = session_parts_spec(
        header_view,
        is_first_event,
        local_settings.tui.show_tooltips,
        tip_view,
        requested_model@,
        session.model@,
    );
    if is_first_event {
        let help = help_lines();
        let ghost hv = lines_view(help@);
        let ghost before = parts@;
        parts.push(HistoryCell::Plain(PlainHistoryCell { lines: help }));
        assert(parts@ == before.push(parts@[1]));
        assert(parts@.map_values(|c: HistoryCell| cell_view(c)) =~= seq![
            HistoryCellView::Header(header_view),
            HistoryCellView::Plain(hv),
        ]);
        assert(parts@.map_values(|c: HistoryCell| cell_view(c)) =~= expected);
    } else {
        let tip = match tooltip_override {
            Some(t) => Some(t),
            None => fallback_tooltip,
        };
        assert(opt_string_view(tip) == tip_view);
        if local_settings.tui.show_tooltips && tip.is_some() {
            let tip = match tip {
                Some(t) => t,
                None => String::new(),
            };
            let ghost tv = tip@;
            let ghost before = parts@.map_values(|c: HistoryCell| cell_view(c));
            parts.push(HistoryCell::Tooltip(TooltipHistoryCell::new(tip, config.cwd.as_str())));
            assert(parts@.map_values(|c: HistoryCell| cell_view(c)) =~= before.push(
                HistoryCellView::Tooltip(tv, config.cwd@),
            ));
        }
        let ghost with_tip = parts@.map_values(|c: HistoryCell| cell_view(c));
        let requested = chars_of(requested_model);
        let used = chars_of(session.model.as_str());
        if !same_chars(&requested, &used) {
            let lines = model_changed_lines(requested_model, session.model.as_str());
            let ghost lv = lines_view(lines@);
            parts.push(HistoryCell::Plain(PlainHistoryCell { lines }));
            assert(parts@.map_values(|c: HistoryCell| cell_view(c)) =~= with_tip.push(
                HistoryCellView::Plain(lv),
            ));
            assert(requested_model@ != session.model@);
        } else {
            assert(requested_model@ == session.model@);
        }
        assert(parts@.map_values(|c: HistoryCell| cell_view(c)) =~= expected);
    }
    let ghost views = parts@.map_values(|c: HistoryCell| cell_view(c));
    let r = SessionInfoCell(CompositeHistoryCell { parts });
    assert(cell_view(HistoryCell::Info(r))->Info_0 =~= views);
    assert(path_separator(header_view.separator));
    r
}

} // verus!
