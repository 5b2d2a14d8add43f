use codex_tui::session::{
    codex_title, fullscreen_session_lines, has_yolo_permissions, is_yolo_mode, new_session_info,
    set_session_greeting, with_border, with_border_with_inner_width, AskForApproval,
    CompositeHistoryCell, Config, Greeting, HistoryCell, HistoryRenderMode, LocalSettings,
    ManagedFileSystemPermissions, NetworkSandboxPolicy, PermissionProfile, Permissions,
    GreetingSlots, PlainHistoryCell, ReasoningEffort, SessionHeaderHistoryCell, SessionInfoCell,
    ThreadSessionState, TooltipHistoryCell, TuiSettings,
};
use codex_tui::text::{truncate_line, Color, Line, Span, Style};

fn text(line: &Line) -> String {
    line.spans.iter().map(|s| s.content.as_str()).collect()
}

fn plain_line(s: &str) -> Line {
    Line { spans: vec![Span::styled(s, Style::plain())] }
}

fn header(yolo: bool) -> SessionHeaderHistoryCell {
    SessionHeaderHistoryCell::new(
        "gpt-5".to_string(),
        Some(ReasoningEffort::High),
        "/home/user/code".to_string(),
        "1.2.3".to_string(),
        Some("/home/user".to_string()),
    )
    .with_yolo_mode(yolo)
}

#[test]
fn yolo_needs_never_approving_and_no_sandbox() {
    let open = PermissionProfile::Managed {
        file_system: ManagedFileSystemPermissions::Unrestricted,
        network: NetworkSandboxPolicy::Enabled,
    };
    let closed = PermissionProfile::Managed {
        file_system: ManagedFileSystemPermissions::Restricted,
        network: NetworkSandboxPolicy::Enabled,
    };
    assert!(has_yolo_permissions(AskForApproval::Never, &PermissionProfile::Disabled));
    assert!(has_yolo_permissions(AskForApproval::Never, &open));
    assert!(!has_yolo_permissions(AskForApproval::Never, &closed));
    assert!(!has_yolo_permissions(AskForApproval::OnRequest, &PermissionProfile::Disabled));
    let config = Config {
        cwd: "/tmp".to_string(),
        permissions: Permissions { approval_policy: AskForApproval::Never, permission_profile: open },
    };
    assert!(is_yolo_mode(&config));
}

#[test]
fn title_names_the_version() {
    let spans = codex_title("0.9");
    let contents: Vec<&str> = spans.iter().map(|s| s.content.as_str()).collect();
    assert_eq!(contents, vec![">_ ", "OpenAI Codex", " (v0.9)"]);
    assert_eq!(spans[0].style.fg, Some(Color::Accent));
    assert!(spans[1].style.bold);
    assert!(spans[2].style.dim);
}

#[test]
fn raw_header_lists_model_directory_and_yolo() {
    let raw: Vec<String> = header(true).raw_lines(&GreetingSlots::new()).iter().map(text).collect();
    assert_eq!(
        raw,
        vec![
            "OpenAI Codex (v1.2.3)",
            "model: gpt-5 high",
            "directory: ~/code",
            "permissions: YOLO mode",
        ]
    );
    let plain = SessionHeaderHistoryCell::new(
        "m".to_string(),
        None,
        "/srv".to_string(),
        "1".to_string(),
        Some("/home/user".to_string()),
    );
    let raw: Vec<String> = plain.raw_lines(&GreetingSlots::new()).iter().map(text).collect();
    assert_eq!(raw, vec!["OpenAI Codex (v1)", "model: m", "directory: /srv"]);
}

#[test]
fn directory_is_shown_from_home_and_cut_in_the_middle() {
    let f = SessionHeaderHistoryCell::format_directory_inner;
    assert_eq!(f("/home/user", Some("/home/user"), None), "~");
    assert_eq!(f("/home/user/a/b", Some("/home/user"), None), "~/a/b");
    assert_eq!(f("/opt/x", Some("/home/user"), None), "/opt/x");
    assert_eq!(f("/opt/x", None, None), "/opt/x");
    assert_eq!(f("/opt/x", None, Some(0)), "");
    assert_eq!(f("/opt/x", None, Some(6)), "/opt/x");
    assert_eq!(f("/very/long/path/name", None, Some(10)), "/very…name");
}

#[test]
fn display_lines_cut_to_width() {
    let lines = header(false).display_lines(80, &GreetingSlots::new());
    let shown: Vec<String> = lines.iter().map(text).collect();
    assert_eq!(shown, vec!["", "  >_ OpenAI Codex (v1.2.3)", "     ~/code"]);
    let narrow: Vec<String> = header(true).display_lines(10, &GreetingSlots::new()).iter().map(text).collect();
    assert_eq!(narrow, vec!["", "  >_ Open…", "     ~/…de", "  permiss…"]);
}

#[test]
fn greeting_follows_the_header_and_raw_lines_show_it() {
    let mut cell = HistoryCell::Info(SessionInfoCell(CompositeHistoryCell {
        parts: vec![HistoryCell::Header(header(false)), HistoryCell::Plain(PlainHistoryCell { lines: vec![] })],
    }));
    let mut slots = GreetingSlots::new();
    let slot = slots.add();
    set_session_greeting(&mut cell, slot);
    let HistoryCell::Info(info) = &cell else { panic!("info") };
    let HistoryCell::Header(h) = &info.0.parts[0] else { panic!("header") };
    assert_eq!(h.greeting, Some(slot));
    let before: Vec<String> = h.raw_lines(&slots).iter().map(text).collect();
    assert_eq!(before, vec!["OpenAI Codex (v1.2.3)", "model: gpt-5 high", "directory: ~/code"]);
    assert!(slots.set(slot, Greeting { phrase: "Hello there".to_string() }));
    assert!(!slots.set(slot, Greeting { phrase: "Again".to_string() }));
    let raw: Vec<String> = h.raw_lines(&slots).iter().map(text).collect();
    assert_eq!(raw, vec!["", "  >_ OpenAI Codex (v1.2.3)", "     ~/code", "", "  Hello there"]);
    let lines = fullscreen_session_lines(&cell, 80, false, HistoryRenderMode::Plain, &slots);
    assert_eq!(text(&lines[lines.len() - 1].line), "  Hello there");
}

#[test]
fn border_pads_lines_to_the_inner_width() {
    let lines = vec![plain_line("ab"), plain_line("abcdef")];
    let out = with_border_with_inner_width(lines, 4);
    let shown: Vec<String> = out.iter().map(text).collect();
    assert_eq!(shown, vec!["╭────────╮", "│ ab     │", "│ abcdef │", "╰────────╯"]);
    let wide = with_border(vec![plain_line("x")], 3).unwrap();
    let shown: Vec<String> = wide.iter().map(text).collect();
    assert_eq!(shown, vec!["╭─────╮", "│ x   │", "╰─────╯"]);
    assert!(with_border(vec![plain_line("x")], usize::MAX).is_none());
}

fn settings(show_tooltips: bool) -> LocalSettings {
    LocalSettings { tui: TuiSettings { show_tooltips } }
}

fn session(model: &str) -> ThreadSessionState {
    ThreadSessionState {
        model: model.to_string(),
        reasoning_effort: None,
        approval_policy: AskForApproval::OnRequest,
        permission_profile: PermissionProfile::Disabled,
    }
}

fn config() -> Config {
    Config {
        cwd: "/work".to_string(),
        permissions: Permissions {
            approval_policy: AskForApproval::OnRequest,
            permission_profile: PermissionProfile::Disabled,
        },
    }
}

#[test]
fn first_event_shows_command_help() {
    let info = new_session_info(
        &config(),
        &settings(true),
        "gpt",
        "GPT",
        &session("gpt"),
        true,
        Some("override".to_string()),
        None,
        "1.0",
        None,
    );
    assert_eq!(info.0.parts.len(), 2);
    let HistoryCell::Plain(help) = &info.0.parts[1] else { panic!("help") };
    assert_eq!(help.lines.len(), 7);
    assert_eq!(text(&help.lines[2]), "  /init - create an AGENTS.md file with instructions for Codex");
    assert!(help.lines[1].spans.is_empty());
}

#[test]
fn later_events_show_the_tip_and_model_change() {
    let info = new_session_info(
        &config(),
        &settings(true),
        "gpt-a",
        "GPT",
        &session("gpt-b"),
        false,
        None,
        Some("Use /status.".to_string()),
        "1.0",
        None,
    );
    assert_eq!(info.0.parts.len(), 3);
    let HistoryCell::Tooltip(tip) = &info.0.parts[1] else { panic!("tip") };
    assert_eq!(tip.tip, "Use /status.");
    assert_eq!(tip.cwd, "/work");
    let HistoryCell::Plain(notice) = &info.0.parts[2] else { panic!("notice") };
    let shown: Vec<String> = notice.lines.iter().map(text).collect();
    assert_eq!(shown, vec!["model changed:", "requested: gpt-a", "used: gpt-b"]);
    let quiet = new_session_info(
        &config(),
        &settings(false),
        "gpt",
        "GPT",
        &session("gpt"),
        false,
        None,
        Some("tip".to_string()),
        "1.0",
        None,
    );
    assert_eq!(quiet.0.parts.len(), 1);
}

#[test]
fn fullscreen_omits_tips_and_separates_parts() {
    let cell = HistoryCell::Info(SessionInfoCell(CompositeHistoryCell {
        parts: vec![
            HistoryCell::Plain(PlainHistoryCell { lines: vec![plain_line("one")] }),
            HistoryCell::Tooltip(TooltipHistoryCell::new("hidden".to_string(), "/")),
            HistoryCell::Plain(PlainHistoryCell { lines: vec![] }),
            HistoryCell::Plain(PlainHistoryCell { lines: vec![plain_line("two")] }),
        ],
    }));
    let lines = fullscreen_session_lines(&cell, 80, false, HistoryRenderMode::Plain, &GreetingSlots::new());
    let shown: Vec<String> = lines.iter().map(|l| text(&l.line)).collect();
    assert_eq!(shown, vec!["one", "", "two"]);
    assert!(lines.iter().all(|l| l.source.is_none()));
    let tip = HistoryCell::Tooltip(TooltipHistoryCell::new("t".to_string(), "/"));
    let lines = fullscreen_session_lines(&tip, 80, true, HistoryRenderMode::Rich, &GreetingSlots::new());
    assert_eq!(text(&lines[0].line), "Tip: t");
}

#[test]
fn tooltip_wraps_inside_its_indent() {
    let tip = TooltipHistoryCell::new("x".to_string(), "/");
    assert_eq!(tip.wrap_width(0), 1);
    assert_eq!(tip.wrap_width(2), 1);
    assert_eq!(tip.wrap_width(10), 8);
    assert_eq!(text(&tip.raw_lines()[0]), "Tip: x");
}

#[test]
fn truncation_keeps_lines_that_fit() {
    let line = Line { spans: vec![Span::styled("abc", Style::plain()), Span::styled("def", Style::dimmed())] };
    assert_eq!(text(&truncate_line(&line, 6)), "abcdef");
    let cut = truncate_line(&line, 5);
    assert_eq!(text(&cut), "abcd…");
    assert!(cut.spans[2].style.dim);
    assert!(truncate_line(&line, 0).spans.is_empty());
}

#[test]
fn raw_lines_drop_line_breaks() {
    let mut cell = SessionHeaderHistoryCell::new(
        "m".to_string(),
        None,
        "/srv/a\r\nb\n".to_string(),
        "1".to_string(),
        None,
    );
    let mut slots = GreetingSlots::new();
    let raw = cell.raw_lines(&slots);
    let contents: Vec<&str> = raw[2].spans.iter().map(|s| s.content.as_str()).collect();
    assert_eq!(contents, vec!["directory: /srv/a", "b"]);
    let slot = slots.add();
    slots.set(slot, Greeting { phrase: "Hi\nthere".to_string() });
    cell.greeting = Some(slot);
    let raw = cell.raw_lines(&slots);
    let texts: Vec<String> = raw.iter().map(text).collect();
    assert_eq!(texts, vec!["", "  >_ OpenAI Codex (v1)", "     /srv/ab", "", "  Hithere"]);
    assert!(raw[0].spans.is_empty());
    assert_eq!(raw[2].spans.len(), 1);
}

#[test]
fn model_notice_lines_split_at_line_breaks() {
    let info = new_session_info(
        &config(),
        &settings(false),
        "a\nb",
        "GPT",
        &session("c"),
        false,
        None,
        None,
        "1.0",
        None,
    );
    let HistoryCell::Plain(notice) = &info.0.parts[1] else { panic!("notice") };
    let contents: Vec<&str> = notice.lines[1].spans.iter().map(|s| s.content.as_str()).collect();
    assert_eq!(contents, vec!["requested: a", "b"]);
}

#[test]
fn home_relative_path_uses_the_given_separator() {
    let f = SessionHeaderHistoryCell::format_directory_with;
    assert_eq!(f("/home/user/a", Some("/home/user"), '\\', None), "~\\a");
    assert_eq!(f("/home/user/a", Some("/home/user"), '/', None), "~/a");
    assert_eq!(SessionHeaderHistoryCell::format_directory_inner("/home/user/a", Some("/home/user"), None), "~/a");
}

#[test]
fn bordered_rows_and_cut_lines_keep_their_widths() {
    let out = with_border_with_inner_width(vec![plain_line("ab"), plain_line("…x")], 5);
    let widths: Vec<usize> = out.iter().map(|l| text(l).chars().count()).collect();
    assert_eq!(widths, vec![9, 9, 9, 9]);
    let cut = truncate_line(&plain_line("abcdefgh"), 4);
    assert_eq!(text(&cut).chars().count(), 4);
}
