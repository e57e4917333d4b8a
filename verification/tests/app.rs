use peek_codex::app::{App, LoadState, Navigation, Screen, WorkerMessage};
use peek_codex::domain::{Session, SessionId, SessionPage};
use peek_codex::text::sanitize_terminal_text;

fn session(id: &str, recency_at: i64) -> Session {
    Session {
        id: SessionId::new(id).unwrap(),
        name: None,
        preview: id.to_owned(),
        cwd: "/tmp/project".to_owned(),
        created_at: recency_at,
        updated_at: recency_at,
        recency_at,
        provider: "openai/cli".to_owned(),
        status: "notLoaded".to_owned(),
        branch: None,
    }
}

#[test]
fn models_empty_and_failure_states() {
    let mut empty = App::default();
    empty.apply(WorkerMessage::Complete);
    assert_eq!(empty.state(), &LoadState::Empty);

    let mut failed = App::default();
    failed.apply(WorkerMessage::Failed("unavailable".to_owned()));
    assert_eq!(failed.state(), &LoadState::Failed("unavailable".to_owned()));
}

#[test]
fn appends_pages_deduplicates_and_preserves_recency_order() {
    let mut app = App::default();
    app.apply(WorkerMessage::Page(SessionPage {
        sessions: vec![session("older", 1), session("newer", 3)],
        next_cursor: Some("next".to_owned()),
    }));
    app.apply(WorkerMessage::Page(SessionPage {
        sessions: vec![session("older", 1), session("middle", 2)],
        next_cursor: None,
    }));

    let ids: Vec<_> = app
        .sessions()
        .iter()
        .map(|session| session.id.as_str())
        .collect();
    assert_eq!(ids, ["newer", "middle", "older"]);
    assert_eq!(app.selected(), Some(0));
    assert!(!app.loading_more());
}

#[test]
fn keeps_navigation_inside_boundaries() {
    let mut app = App::default();
    app.apply(WorkerMessage::Page(SessionPage {
        sessions: vec![session("a", 2), session("b", 1)],
        next_cursor: None,
    }));

    app.navigate(Navigation::Up);
    assert_eq!(app.selected(), Some(0));
    app.navigate(Navigation::End);
    assert_eq!(app.selected(), Some(1));
    app.navigate(Navigation::Down);
    assert_eq!(app.selected(), Some(1));
    app.navigate(Navigation::Home);
    assert_eq!(app.selected(), Some(0));
}

#[test]
fn filters_sessions_and_navigates_only_visible_rows() {
    let mut app = App::default();
    let mut alpha = session("alpha", 3);
    alpha.name = Some("Alpha release".to_owned());
    alpha.branch = Some("feature/search".to_owned());
    let mut beta = session("beta", 2);
    beta.cwd = "/tmp/beta-project".to_owned();
    let gamma = session("gamma", 1);
    app.apply(WorkerMessage::Page(SessionPage {
        sessions: vec![alpha, beta, gamma],
        next_cursor: None,
    }));

    app.begin_search();
    for character in "beta".chars() {
        app.push_search(character);
    }

    assert_eq!(app.filtered_indices(), vec![1]);
    assert_eq!(app.selected_session().unwrap().id.as_str(), "beta");

    app.open_selected();
    assert_eq!(app.view(), Screen::Details);
    app.close_details();

    app.cancel_search();
    assert_eq!(app.filtered_indices(), vec![0, 1, 2]);
    assert_eq!(app.selected_session().unwrap().id.as_str(), "alpha");
}

#[test]
fn opens_details_only_for_a_visible_selected_session() {
    let mut app = App::default();
    let mut first = session("first", 1);
    first.name = Some("First project check".to_owned());
    app.apply(WorkerMessage::Page(SessionPage {
        sessions: vec![first],
        next_cursor: None,
    }));

    app.begin_search();
    app.push_search('f');
    app.open_selected();
    assert_eq!(app.view(), Screen::Details);
    assert!(app.is_searching());
    assert_eq!(app.search(), "f");
    app.close_details();
    assert_eq!(app.view(), Screen::Sessions);

    app.cancel_search();
    app.begin_search();
    app.push_search('z');
    app.open_selected();
    assert_eq!(app.view(), Screen::Sessions);
}

#[test]
fn builds_project_overview_from_loaded_project_metadata() {
    let mut app = App::default();
    let mut newest = session("newest", 3);
    newest.cwd = "/tmp/petty".to_owned();
    newest.provider = "openai/cli".to_owned();
    newest.status = "notLoaded".to_owned();
    newest.branch = Some("main".to_owned());
    let mut older = session("older", 2);
    older.cwd = "/tmp/petty".to_owned();
    older.provider = "openai/cli".to_owned();
    older.status = "completed".to_owned();
    older.branch = Some("feature/cards".to_owned());
    let mut other = session("other", 1);
    other.cwd = "/tmp/peek-codex".to_owned();
    app.apply(WorkerMessage::Page(SessionPage {
        sessions: vec![newest, older, other],
        next_cursor: None,
    }));

    let overview = app.selected_project_overview().unwrap();
    assert_eq!(app.project_count(), 2);
    assert_eq!(overview.label, "petty");
    assert_eq!(overview.session_count, 2);
    assert_eq!(overview.latest_activity, 3);
    assert_eq!(overview.providers, ["openai/cli"]);
    assert_eq!(overview.statuses, ["completed", "notLoaded"]);
    assert_eq!(overview.branches, ["feature/cards", "main"]);
}

#[test]
fn search_does_not_use_agent_output_preview() {
    let mut app = App::default();
    let mut session = session("title", 1);
    session.name = Some("Project check-in".to_owned());
    session.preview = "agent output that must not be searchable".to_owned();
    app.apply(WorkerMessage::Page(SessionPage {
        sessions: vec![session],
        next_cursor: None,
    }));

    app.begin_search();
    for character in "agent output".chars() {
        app.push_search(character);
    }
    assert!(app.filtered_indices().is_empty());
}

#[test]
fn later_failure_keeps_loaded_sessions_usable() {
    let mut app = App::default();
    app.apply(WorkerMessage::Page(SessionPage {
        sessions: vec![session("loaded", 1)],
        next_cursor: Some("next".to_owned()),
    }));

    app.apply(WorkerMessage::Failed("second page failed".to_owned()));

    assert_eq!(app.state(), &LoadState::Ready);
    assert_eq!(app.sessions()[0].id.as_str(), "loaded");
    assert_eq!(app.selected(), Some(0));
    assert_eq!(app.warning(), Some("second page failed"));
    assert!(!app.loading_more());
}

#[test]
fn appended_pages_preserve_selected_session_identity() {
    let mut app = App::default();
    app.apply(WorkerMessage::Page(SessionPage {
        sessions: vec![session("selected", 2), session("older", 1)],
        next_cursor: Some("next".to_owned()),
    }));
    app.navigate(Navigation::End);
    app.navigate(Navigation::Up);
    assert_eq!(
        app.sessions()[app.selected().unwrap()].id.as_str(),
        "selected"
    );

    app.apply(WorkerMessage::Page(SessionPage {
        sessions: vec![session("newer", 3)],
        next_cursor: None,
    }));

    assert_eq!(
        app.sessions()[app.selected().unwrap()].id.as_str(),
        "selected"
    );
}

#[test]
fn sanitizes_and_bounds_fatal_and_partial_failure_messages() {
    let hostile = format!("first line\n\u{1b}[31m{}", "x".repeat(300));
    let expected = sanitize_terminal_text(&hostile);
    let mut fatal = App::default();

    fatal.apply(WorkerMessage::Failed(hostile.clone()));

    assert_eq!(fatal.state(), &LoadState::Failed(expected.clone()));
    assert!(!expected.contains('\n'));
    assert!(!expected.contains('\u{1b}'));
    assert!(expected.chars().count() <= 240);

    let mut partial = App::default();
    partial.apply(WorkerMessage::Page(SessionPage {
        sessions: vec![session("loaded", 1)],
        next_cursor: Some("next".to_owned()),
    }));
    partial.apply(WorkerMessage::Failed(hostile));
    assert_eq!(partial.warning(), Some(expected.as_str()));
}

#[test]
fn replaces_empty_failure_messages() {
    let mut app = App::default();
    app.apply(WorkerMessage::Failed("\n\t".to_owned()));
    assert_eq!(
        app.state(),
        &LoadState::Failed("unknown app-server error".to_owned())
    );
}

#[test]
fn completion_after_a_warning_clears_it() {
    let mut app = App::default();
    assert_eq!(app.state(), &LoadState::Loading);
    assert!(app.loading_more());
    app.apply(WorkerMessage::Page(SessionPage {
        sessions: vec![session("loaded", 1)],
        next_cursor: Some("next".to_owned()),
    }));
    assert!(app.loading_more());
    app.apply(WorkerMessage::Failed("later".to_owned()));
    assert_eq!(app.warning(), Some("later"));
    app.apply(WorkerMessage::Complete);
    assert_eq!(app.warning(), None);
    assert_eq!(app.state(), &LoadState::Ready);
}

#[test]
fn an_empty_first_page_keeps_loading() {
    let mut app = App::default();
    app.apply(WorkerMessage::Page(SessionPage {
        sessions: vec![],
        next_cursor: Some("next".to_owned()),
    }));
    assert_eq!(app.state(), &LoadState::Loading);
    assert_eq!(app.selected(), None);
    assert!(app.selected_session().is_none());
    assert!(app.selected_project_overview().is_none());
    assert_eq!(app.project_count(), 0);
    app.navigate(Navigation::Down);
    assert_eq!(app.selected(), None);
}

#[test]
fn search_is_case_insensitive_and_covers_every_safe_field() {
    let mut app = App::default();
    let mut named = session("named", 5);
    named.name = Some("Release NOTES".to_owned());
    let mut branched = session("branched", 4);
    branched.branch = Some("Feature/Ünicode".to_owned());
    let mut status = session("status", 3);
    status.status = "Completed".to_owned();
    let mut provider = session("provider", 2);
    provider.provider = "Azure/vscode".to_owned();
    app.apply(WorkerMessage::Page(SessionPage {
        sessions: vec![named, branched, status, provider],
        next_cursor: None,
    }));
    app.begin_search();
    for c in "notes".chars() {
        app.push_search(c);
    }
    assert_eq!(app.filtered_indices(), vec![0]);
    app.cancel_search();
    app.begin_search();
    for c in "ünicode".chars() {
        app.push_search(c);
    }
    assert_eq!(app.filtered_indices(), vec![1]);
    app.cancel_search();
    app.begin_search();
    app.push_search('C');
    app.push_search('O');
    app.push_search('M');
    assert_eq!(app.filtered_indices(), vec![2]);
    app.pop_search();
    app.pop_search();
    app.pop_search();
    app.pop_search();
    assert_eq!(app.search(), "");
    assert_eq!(app.filtered_indices(), vec![0, 1, 2, 3]);
    app.push_search('A');
    app.push_search('z');
    assert_eq!(app.filtered_indices(), vec![3]);
    assert_eq!(app.selected(), Some(3));
    assert_eq!(app.selected_filtered_index(), Some(0));
}

#[test]
fn typing_outside_a_search_changes_nothing() {
    let mut app = App::default();
    app.apply(WorkerMessage::Page(SessionPage {
        sessions: vec![session("a", 1)],
        next_cursor: None,
    }));
    app.push_search('x');
    app.pop_search();
    assert_eq!(app.search(), "");
    assert!(!app.is_searching());
}

#[test]
fn cancelling_returns_to_the_selection_before_the_search() {
    let mut app = App::default();
    let mut one = session("one", 3);
    one.name = Some("One".to_owned());
    let mut two = session("two", 2);
    two.name = Some("Two".to_owned());
    app.apply(WorkerMessage::Page(SessionPage {
        sessions: vec![one, two],
        next_cursor: None,
    }));
    app.navigate(Navigation::Down);
    assert_eq!(app.selected(), Some(1));
    app.begin_search();
    app.push_search('o');
    app.push_search('n');
    assert_eq!(app.selected(), Some(0));
    app.apply(WorkerMessage::Page(SessionPage {
        sessions: vec![session("newest", 9)],
        next_cursor: None,
    }));
    app.cancel_search();
    assert_eq!(app.selected_session().unwrap().id.as_str(), "two");
}

#[test]
fn counts_projects_by_working_directory() {
    let mut app = App::default();
    let mut a = session("a", 3);
    a.cwd = "/b".to_owned();
    let mut b = session("b", 2);
    b.cwd = "/a".to_owned();
    let mut c = session("c", 1);
    c.cwd = "/b".to_owned();
    app.apply(WorkerMessage::Page(SessionPage {
        sessions: vec![a, b, c],
        next_cursor: None,
    }));
    assert_eq!(app.project_count(), 2);
    let overview = app.selected_project_overview().unwrap();
    assert_eq!(overview.label, "b");
    assert_eq!(overview.session_count, 2);
    assert_eq!(overview.latest_activity, 3);
    assert!(overview.branches.is_empty());
}

#[test]
fn the_home_project_overview_reads_workspace() {
    let mut app = App::default();
    let mut home = session("home", 2);
    home.cwd = "/Users/example".to_owned();
    app.apply(WorkerMessage::Page(SessionPage {
        sessions: vec![home],
        next_cursor: None,
    }));
    assert_eq!(app.selected_project_overview().unwrap().label, "example");
    app.set_home(Some("/Users/example".to_owned()));
    assert_eq!(app.home(), Some("/Users/example"));
    assert_eq!(app.selected_project_overview().unwrap().label, "Workspace");
}

#[test]
fn an_empty_search_shows_every_row() {
    let mut app = App::default();
    app.apply(WorkerMessage::Page(SessionPage {
        sessions: vec![session("a", 3), session("b", 2), session("c", 1)],
        next_cursor: None,
    }));
    app.begin_search();
    assert_eq!(app.filtered_indices(), vec![0, 1, 2]);
}
