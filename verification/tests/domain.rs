use peek_codex::domain::{
    format_age, format_age_at, project_label, project_label_in, Session, SessionId, SessionPage,
};
use peek_codex::text::sanitize_terminal_text;
use std::time::{Duration, UNIX_EPOCH};

fn session(id: &str, recency_at: i64, updated_at: i64) -> Session {
    Session {
        id: SessionId::new(id).unwrap(),
        name: None,
        preview: String::new(),
        cwd: String::new(),
        created_at: 0,
        updated_at,
        recency_at,
        provider: String::new(),
        status: String::new(),
        branch: None,
    }
}

#[test]
fn sanitizes_control_characters_and_collapses_lines() {
    assert_eq!(
        sanitize_terminal_text(" hello\n\u{1b}[31m\tworld\r "),
        "hello [31m world"
    );
}

#[test]
fn truncates_sanitized_text_by_characters() {
    let result = sanitize_terminal_text(&"é".repeat(300));
    assert_eq!(result.chars().count(), 240);
}

#[test]
fn derives_project_from_working_directory() {
    assert_eq!(project_label("/Users/example/project"), "project");
    assert_eq!(project_label("/"), "/");
    assert_eq!(project_label(""), "");
}

#[test]
fn formats_relative_ages() {
    let now = UNIX_EPOCH + Duration::from_secs(10_000_000);
    assert_eq!(format_age(9_999_990, now), "now");
    assert_eq!(format_age(9_999_880, now), "2m");
    assert_eq!(format_age(9_992_800, now), "2h");
    assert_eq!(format_age(9_827_200, now), "2d");
    assert_eq!(format_age(4_816_000, now), "2mo");
    assert_eq!(format_age(10_000_100, now), "now");
}

#[test]
fn orders_sessions_by_recency_with_stable_tie_breakers() {
    let mut page = SessionPage {
        sessions: vec![
            session("b", 10, 20),
            session("c", 20, 5),
            session("a", 10, 20),
        ],
        next_cursor: None,
    };

    page.sort_by_recency();

    let ids: Vec<_> = page.sessions.iter().map(|item| item.id.as_str()).collect();
    assert_eq!(ids, ["c", "a", "b"]);
}

#[test]
fn sanitized_text_never_exceeds_the_line_bound_after_a_late_space() {
    let input = format!("{} {}", "x".repeat(240), "y".repeat(20));
    let result = sanitize_terminal_text(&input);
    assert_eq!(result.chars().count(), 240);
    assert_eq!(result, "x".repeat(240));
    let input = format!("{} {}", "x".repeat(239), "y".repeat(20));
    let result = sanitize_terminal_text(&input);
    assert_eq!(result.chars().count(), 240);
    assert!(result.ends_with(' '));
}

#[test]
fn sanitizing_drops_unicode_space_and_control_characters() {
    assert_eq!(
        sanitize_terminal_text("\u{3000}a\u{85}\u{2028}b\u{9f}c\u{a0}"),
        "a b c"
    );
    assert_eq!(sanitize_terminal_text("\n\t\u{7f}"), "");
}

#[test]
fn rejects_blank_session_identifiers() {
    let error = SessionId::new(" \t\u{3000}").unwrap_err();
    assert_eq!(error.message(), "session id is empty");
    assert!(SessionId::new("").is_err());
    assert_eq!(SessionId::new(" a ").unwrap().as_str(), " a ");
}

#[test]
fn project_label_uses_the_last_path_component() {
    assert_eq!(project_label("/tmp/peek-codex/"), "peek-codex");
    assert_eq!(project_label("relative/dir"), "dir");
    assert_eq!(project_label("/tmp/.."), "/tmp/..");
    let labelled = session("x", 0, 0);
    assert_eq!(labelled.project_label(), "");
}

#[test]
fn formats_age_boundaries_and_future_times() {
    assert_eq!(format_age_at(0, 59), "now");
    assert_eq!(format_age_at(0, 60), "1m");
    assert_eq!(format_age_at(0, 3_599), "59m");
    assert_eq!(format_age_at(0, 3_600), "1h");
    assert_eq!(format_age_at(0, 86_400), "1d");
    assert_eq!(format_age_at(0, 2_592_000), "1mo");
    assert_eq!(format_age_at(100, 50), "now");
    assert_eq!(format_age_at(i64::MIN, i64::MAX), "3558399705576mo");
}

#[test]
fn sorting_keeps_every_session_and_orders_by_update_then_id() {
    let mut page = SessionPage {
        sessions: vec![
            session("z", 5, 1),
            session("y", 5, 2),
            session("x", 7, 0),
            session("w", 5, 1),
        ],
        next_cursor: Some("after".to_owned()),
    };
    page.sort_by_recency();
    let ids: Vec<_> = page.sessions.iter().map(|item| item.id.as_str()).collect();
    assert_eq!(ids, ["x", "y", "w", "z"]);
    assert_eq!(page.next_cursor.as_deref(), Some("after"));
}

#[test]
fn the_home_directory_is_labelled_workspace() {
    assert_eq!(
        project_label_in("/Users/example", Some("/Users/example")),
        "Workspace"
    );
    assert_eq!(
        project_label_in("/Users/example/", Some("/Users/example")),
        "Workspace"
    );
    assert_eq!(
        project_label_in("/Users/example/project", Some("/Users/example")),
        "project"
    );
    assert_eq!(project_label_in("/Users/example", None), "example");
    assert_eq!(project_label_in("/", Some("/")), "Workspace");
}
