# codex_tui

Presentation logic of the Codex terminal UI, written in Verus and proved against its
contracts:

- `src/markdown_copy.rs`: copying a selection of a rendered Markdown table back to
  Markdown; `src/table_laws.rs` states what every copy keeps.
- `src/session.rs`: the session banner, the startup card and its parts, bordered cards,
  and the greeting slots that a thread's headers and animation share;
  `src/session_laws.rs` states how greetings and the fullscreen transcript behave.
- `src/startup_draft_layout.rs`: where the first frame puts the banner, the composer and
  the decoration between them.
- `src/empty_state_animation.rs`: the welcome animation's clock, replay and placement;
  `src/animation_laws.rs` states how visible time advances.
- `src/text.rs` and `src/layout.rs`: styled lines and rectangles, the models the contracts
  speak in.

`app/` holds the unverified glue: conversions to and from the ratatui and crossterm types,
the process clock and home directory, and painting a planned frame into a buffer.
