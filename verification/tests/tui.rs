use peek_codex::app::{App, LoadState, Screen, WorkerMessage};
use peek_codex::domain::{Session, SessionId, SessionPage};
use peek_codex::tui::{
    footer_text, handle_key, key_action, left_pad, repeated_cursor_error, row_parts, session_parts, session_row, should_quit,
    status_text, truncate, CursorLog, KeyAction, KeyCode, KeyInput, PageStep,
};
use unicode_width::UnicodeWidthStr;

fn display_width(value: &str) -> usize {
    UnicodeWidthStr::width(value)
}

fn key(code: KeyCode) -> KeyInput {
    KeyInput {
        code,
        control: false,
    }
}

#[test]
fn truncates_at_terminal_width() {
    assert_eq!(truncate("hello", 5), "hello");
    assert_eq!(truncate("hello", 4), "hel…");
    assert_eq!(truncate("hello", 1), "…");
    assert_eq!(truncate("hello", 0), "");

    let wide = truncate("界界", 3);
    assert_eq!(wide, "界…");
    assert_eq!(display_width(&wide), 3);

    let combining = truncate("e\u{301}xy", 2);
    assert_eq!(combining, "e\u{301}…");
    assert_eq!(display_width(&combining), 2);
    assert_eq!(truncate("\u{301}界x", 2), "…");
}

#[test]
fn session_parts_fit_narrow_rows_and_prioritize_preview() {
    let session = session(
        "/tmp/界界界-project",
        "preview with wide 文字",
        Some("feature/界界界"),
    );

    for width in 0..=16 {
        let (metadata, preview) = session_parts(&session, width);
        assert!(display_width(&format!("{metadata}{preview}")) <= width);
    }

    let (metadata, preview) = session_parts(&session, 16);

    assert!(!preview.is_empty());
    assert!(!metadata.contains('['));
}

#[test]
fn session_parts_cap_metadata_at_display_cell_width() {
    let session = session(
        "/tmp/界界界界界界界界界界界界",
        "preview with wide 文字",
        Some("feature/界界界界界界界界界界界界"),
    );

    let (metadata, preview) = session_parts(&session, 69);
    assert!(!metadata.contains('['));
    assert!(metadata.contains('界'));
    assert!(display_width(&format!("{metadata}{preview}")) <= 69);

    let (metadata, preview) = session_parts(&session, 70);

    assert!(metadata.contains('['));
    assert!(display_width(&format!("{metadata}{preview}")) <= 70);
    assert!(!preview.is_empty());
}

fn session(cwd: &str, preview: &str, branch: Option<&str>) -> Session {
    Session {
        id: SessionId::new("row").unwrap(),
        name: None,
        preview: preview.to_owned(),
        cwd: cwd.to_owned(),
        created_at: 0,
        updated_at: 0,
        recency_at: 0,
        provider: String::new(),
        status: String::new(),
        branch: branch.map(str::to_owned),
    }
}

#[test]
fn recognizes_every_exit_key() {
    assert!(should_quit(KeyInput {
        code: KeyCode::Char('q'),
        control: false
    }));
    assert!(should_quit(KeyInput {
        code: KeyCode::Esc,
        control: false
    }));
    assert!(should_quit(KeyInput {
        code: KeyCode::Char('c'),
        control: true
    }));
}

#[test]
fn other_keys_do_not_quit() {
    assert!(!should_quit(key(KeyCode::Char('c'))));
    assert!(!should_quit(key(KeyCode::Char('j'))));
    assert!(!should_quit(key(KeyCode::Enter)));
}

#[test]
fn lays_out_rows_with_a_fixed_age() {
    let row = session("/tmp/alpha", "the preview", Some("main"));
    let (metadata, preview) = row_parts(&row, 30, "2m", None);
    assert_eq!(metadata, "  2m  alpha  ");
    assert_eq!(preview, "the preview");
    let (metadata, preview) = row_parts(&row, 80, "3mo", None);
    assert_eq!(metadata, " 3mo  alpha   [main]  ");
    assert_eq!(preview, "the preview");
    let (metadata, preview) = row_parts(&row, 4, "now", None);
    assert_eq!(metadata, " no…");
    assert_eq!(preview, "");
    let (metadata, preview) = row_parts(&row, 14, "12345", None);
    assert_eq!(metadata, "123…  ");
    assert_eq!(preview, "the pre…");
}

#[test]
fn pads_on_the_left_by_display_width() {
    assert_eq!(left_pad("ab", 4), "  ab");
    assert_eq!(left_pad("界", 4), "  界");
    assert_eq!(left_pad("abcde", 4), "abcde");
}

#[test]
fn routes_keys_by_screen_and_search() {
    let mut app = App::default();
    let mut first = session("/tmp/one", "p", None);
    first.name = Some("Quick fix".to_owned());
    let mut second = session("/tmp/two", "p", None);
    second.id = SessionId::new("second").unwrap();
    second.recency_at = -1;
    app.apply(WorkerMessage::Page(SessionPage {
        sessions: vec![first, second],
        next_cursor: None,
    }));
    assert_eq!(key_action(&app, key(KeyCode::Char('j'))), KeyAction::Move(peek_codex::app::Navigation::Down));
    assert!(!handle_key(&mut app, key(KeyCode::Char('j'))));
    assert_eq!(app.selected(), Some(1));
    assert!(!handle_key(&mut app, key(KeyCode::Char('/'))));
    assert!(app.is_searching());
    for c in "qu".chars() {
        assert!(!handle_key(&mut app, key(KeyCode::Char(c))));
    }
    assert_eq!(app.search(), "qu");
    assert_eq!(app.selected(), Some(0));
    assert!(!handle_key(&mut app, key(KeyCode::Backspace)));
    assert_eq!(app.search(), "q");
    assert!(!handle_key(&mut app, key(KeyCode::Enter)));
    assert_eq!(app.view(), Screen::Details);
    assert_eq!(key_action(&app, key(KeyCode::Char('q'))), KeyAction::Type('q'));
    assert!(!handle_key(&mut app, key(KeyCode::Esc)));
    assert_eq!(app.view(), Screen::Sessions);
    assert!(!handle_key(&mut app, key(KeyCode::Esc)));
    assert!(!app.is_searching());
    assert_eq!(app.selected(), Some(1));
    assert!(handle_key(&mut app, key(KeyCode::Char('q'))));
    assert!(handle_key(
        &mut app,
        KeyInput {
            code: KeyCode::Char('c'),
            control: true
        }
    ));
}

#[test]
fn status_and_footer_follow_the_state() {
    let mut app = App::default();
    assert_eq!(status_text(&app), "loading sessions");
    app.apply(WorkerMessage::Page(SessionPage {
        sessions: vec![session("/tmp/a", "p", None)],
        next_cursor: Some("n".to_owned()),
    }));
    assert_eq!(status_text(&app), "1 sessions · 1 matching · 1 projects · loading more");
    app.apply(WorkerMessage::Failed("page\ttwo".to_owned()));
    assert_eq!(status_text(&app), "1 sessions · 1 matching · 1 projects · partial");
    assert_eq!(
        footer_text(&app),
        "Partial results: page two\n↑/k ↓/j navigate  Home/End jump  / search  Enter details  q/Esc/Ctrl-C quit"
    );
    app.apply(WorkerMessage::Complete);
    assert_eq!(status_text(&app), "1 sessions · 1 matching · 1 projects");
    assert_eq!(
        footer_text(&app),
        "↑/k ↓/j navigate  Home/End jump  / search  Enter details  q/Esc/Ctrl-C quit"
    );
    app.begin_search();
    app.push_search('z');
    assert_eq!(status_text(&app), "1 sessions · 0 matching · 1 projects");
    assert_eq!(
        footer_text(&app),
        "type to search  Backspace erase  ↑/↓ navigate  Enter details  Esc clear  Ctrl-C quit"
    );
    let mut empty = App::default();
    empty.apply(WorkerMessage::Complete);
    assert_eq!(status_text(&empty), "no interactive sessions found");
    let mut failed = App::default();
    failed.apply(WorkerMessage::Failed("x".to_owned()));
    assert_eq!(failed.state(), &LoadState::Failed("x".to_owned()));
    assert_eq!(status_text(&failed), "integration error");
}

#[test]
fn pagination_stops_on_completion_and_on_a_repeated_cursor() {
    let mut log = CursorLog::new();
    assert_eq!(
        log.after_page(Some("a".to_owned())),
        PageStep::Fetch("a".to_owned())
    );
    assert_eq!(
        log.after_page(Some("b".to_owned())),
        PageStep::Fetch("b".to_owned())
    );
    assert_eq!(log.after_page(Some("a".to_owned())), PageStep::RepeatedCursor);
    assert_eq!(log.after_page(None), PageStep::Complete);
    let mut fresh = CursorLog::new();
    assert_eq!(
        fresh.after_page(Some("repeat".to_owned())),
        PageStep::Fetch("repeat".to_owned())
    );
    assert_eq!(
        fresh.after_page(Some("repeat".to_owned())),
        PageStep::RepeatedCursor
    );
}

#[test]
fn home_directory_rows_read_workspace() {
    let row = session("/Users/example", "the preview", None);
    let (metadata, _) = row_parts(&row, 30, "2m", Some("/Users/example/"));
    assert_eq!(metadata, "  2m  Workspace  ");
    let (metadata, _) = row_parts(&row, 30, "2m", None);
    assert_eq!(metadata, "  2m  example  ");
    let (metadata, _) = row_parts(&row, 30, "2m", Some("/Users/other"));
    assert_eq!(metadata, "  2m  example  ");
    let (metadata, _) = session_row(&row, 30, Some("/Users/example"));
    assert!(metadata.ends_with("Workspace  "));
}

#[test]
fn every_row_fits_its_width() {
    let long = session(
        "/home/someone/a-project-with-a-rather-long-directory-name",
        "a preview that goes on for longer than any terminal row would hold in one line",
        Some("feature/branch-name-that-is-long"),
    );
    for width in 0..=120 {
        for age in ["now", "5m", "12h", "300d", "12345d"] {
            for home in [None, Some("/home/someone")] {
                let (metadata, preview) = row_parts(&long, width, age, home);
                assert!(display_width(&format!("{metadata}{preview}")) <= width);
            }
        }
    }
}

#[test]
fn truncation_measures_the_whole_text() {
    let hearts = "\u{2764}\u{FE0F}\u{2764}\u{FE0F}\u{2764}\u{FE0F}";
    assert!(display_width(hearts) > 3);
    let cut = truncate(hearts, 3);
    assert!(display_width(&cut) <= 3);
    assert_eq!(cut, "\u{2764}\u{FE0F}\u{2026}");
    for width in 0..8 {
        assert!(display_width(&truncate(hearts, width)) <= width);
    }
}

#[test]
fn rows_with_emoji_sequences_fit_their_width() {
    let row = session(
        "/tmp/\u{2764}\u{FE0F}\u{2764}\u{FE0F}project",
        "\u{2764}\u{FE0F}\u{2764}\u{FE0F}\u{2764}\u{FE0F}\u{2764}\u{FE0F} preview",
        Some("\u{2764}\u{FE0F}\u{2764}\u{FE0F}"),
    );
    for width in 0..=100 {
        let (metadata, preview) = row_parts(&row, width, "3d", None);
        assert!(display_width(&metadata) + display_width(&preview) <= width);
    }
}

#[test]
fn names_the_repeated_cursor_failure() {
    assert_eq!(
        repeated_cursor_error(),
        "app-server returned a repeated pagination cursor"
    );
}
