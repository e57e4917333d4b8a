use peek_codex::app::{App, LoadState, WorkerMessage};
use peek_codex::domain::SessionPage;
use peek_codex::codex::{
    decode_response, decode_thread_list, display_source, read_reply, reply_wait, session_from_thread,
    ProtocolGitInfo, ProtocolSource, ProtocolStatus, ProtocolThread, ReplyWait, RpcResponse,
    SourceError, ThreadListResponse,
};

fn thread(id: &str, updated_at: i64, recency_at: Option<i64>) -> ProtocolThread {
    ProtocolThread {
        id: id.to_owned(),
        name: None,
        preview: String::new(),
        cwd: "/tmp/project".to_owned(),
        created_at: 1,
        updated_at,
        recency_at,
        model_provider: "openai".to_owned(),
        source: ProtocolSource::Text("cli".to_owned()),
        status: ProtocolStatus {
            kind: "notLoaded".to_owned(),
        },
        git_info: None,
    }
}

#[test]
fn decodes_redacted_fixture_without_leaking_nested_content() {
    let mut first = thread("019-first", 200, Some(300));
    first.preview = "Fix the\nrelease build".to_owned();
    first.git_info = Some(ProtocolGitInfo {
        branch: Some("feature\tsafe".to_owned()),
    });
    let second = thread("019-second", 100, None);
    let fixture = ThreadListResponse {
        data: vec![second, first],
        next_cursor: None,
    };

    let page = decode_thread_list(fixture).unwrap();

    assert_eq!(page.sessions.len(), 2);
    assert_eq!(page.sessions[0].id.as_str(), "019-first");
    assert_eq!(page.sessions[0].preview, "Fix the release build");
    assert_eq!(page.sessions[0].branch.as_deref(), Some("feature safe"));
    assert_eq!(page.sessions[0].provider, "openai/cli");
    assert_eq!(page.sessions[1].recency_at, 100);
    let debug = format!("{:?}", page.sessions);
    assert!(!debug.contains("secret-command"));
    assert!(!debug.contains("private-file-change"));
}

#[test]
fn rejects_malformed_rpc_error() {
    let error: RpcResponse<()> = RpcResponse {
        id: Some(3),
        error: Some(None),
        result: None,
    };
    let error = decode_response(error, 3).unwrap_err();
    assert_eq!(
        error.message(),
        "app-server returned a malformed JSON-RPC error"
    );
    let line = "{\"jsonrpc\":\"2.0\",\"id\":3,\"error\":{\"code\":-32603,\"message\":7}}";
    assert_eq!(
        read_reply(line, 3).unwrap_err().message(),
        "app-server returned a malformed JSON-RPC error"
    );
}

#[test]
fn displays_unknown_source_without_failing() {
    assert_eq!(
        display_source(&ProtocolSource::Object {
            custom: None,
            has_sub_agent: false,
        }),
        "unknown"
    );
}

#[test]
fn displays_every_kind_of_source() {
    assert_eq!(display_source(&ProtocolSource::Text("vs\ncode".to_owned())), "vs code");
    assert_eq!(
        display_source(&ProtocolSource::Object {
            custom: Some(Some("my tool".to_owned())),
            has_sub_agent: true,
        }),
        "my tool"
    );
    assert_eq!(
        display_source(&ProtocolSource::Object {
            custom: Some(None),
            has_sub_agent: true,
        }),
        ""
    );
    assert_eq!(
        display_source(&ProtocolSource::Object {
            custom: None,
            has_sub_agent: true,
        }),
        "subAgent"
    );
    assert_eq!(display_source(&ProtocolSource::Other), "unknown");
}

#[test]
fn decodes_replies_to_the_expected_request_only() {
    let other: RpcResponse<u32> = RpcResponse {
        id: Some(2),
        error: None,
        result: Some(7),
    };
    assert!(decode_response(other, 3).unwrap().is_none());
    let unnumbered: RpcResponse<u32> = RpcResponse {
        id: None,
        error: Some(None),
        result: None,
    };
    assert!(decode_response(unnumbered, 3).unwrap().is_none());
    let result: RpcResponse<u32> = RpcResponse {
        id: Some(3),
        error: None,
        result: Some(7),
    };
    assert_eq!(decode_response(result, 3).unwrap(), Some(7));
    let failed: RpcResponse<u32> = RpcResponse {
        id: Some(3),
        error: Some(Some("boom".to_owned())),
        result: Some(7),
    };
    assert_eq!(
        decode_response(failed, 3).unwrap_err().message(),
        "app-server request failed: boom"
    );
    let empty: RpcResponse<u32> = RpcResponse {
        id: Some(3),
        error: None,
        result: None,
    };
    assert_eq!(
        decode_response(empty, 3).unwrap_err().message(),
        "app-server response did not contain a result"
    );
}

#[test]
fn rejects_threads_without_an_identifier() {
    let error = session_from_thread(thread(" ", 1, None)).unwrap_err();
    assert_eq!(error.message(), "invalid thread id: session id is empty");
    let list = ThreadListResponse {
        data: vec![thread("good", 1, None), thread("", 2, None)],
        next_cursor: Some("next".to_owned()),
    };
    assert_eq!(
        decode_thread_list(list).unwrap_err().message(),
        "invalid thread id: session id is empty"
    );
}

#[test]
fn decodes_every_field_of_a_thread() {
    let mut record = thread("id-1", 5, None);
    record.name = Some("  \n ".to_owned());
    record.cwd = "/tmp/with\ttab".to_owned();
    record.model_provider = "open\u{7}ai".to_owned();
    record.source = ProtocolSource::Object {
        custom: Some(None),
        has_sub_agent: false,
    };
    record.status.kind = "idle".to_owned();
    record.git_info = Some(ProtocolGitInfo { branch: Some("\t".to_owned()) });
    let session = session_from_thread(record).unwrap();
    assert_eq!(session.id.as_str(), "id-1");
    assert_eq!(session.name, None);
    assert_eq!(session.cwd, "/tmp/with tab");
    assert_eq!(session.provider, "open ai");
    assert_eq!(session.status, "idle");
    assert_eq!(session.branch, None);
    assert_eq!(session.recency_at, 5);
    assert_eq!(session.created_at, 1);
    let page = decode_thread_list(ThreadListResponse {
        data: vec![],
        next_cursor: Some("c".to_owned()),
    })
    .unwrap();
    assert!(page.sessions.is_empty());
    assert_eq!(page.next_cursor.as_deref(), Some("c"));
}

#[test]
fn source_errors_keep_their_message() {
    let error = SourceError::new("app-server timed out".to_owned());
    assert_eq!(error.message(), "app-server timed out");
}

#[test]
fn rpc_error_on_a_later_page_becomes_a_sanitized_warning() {
    let mut app = App::default();
    let first = decode_thread_list(ThreadListResponse {
        data: vec![thread("loaded", 2, Some(2))],
        next_cursor: Some("next".to_owned()),
    })
    .unwrap();
    app.apply(WorkerMessage::Page(SessionPage {
        sessions: first.sessions,
        next_cursor: first.next_cursor,
    }));
    let hostile = format!("second page\n\u{1b}[31m{}", "x".repeat(300));
    let reply: RpcResponse<()> = RpcResponse {
        id: Some(3),
        error: Some(Some(hostile)),
        result: None,
    };
    let error = decode_response(reply, 3).unwrap_err();
    app.apply(WorkerMessage::Failed(error.message().to_owned()));

    assert_eq!(app.state(), &LoadState::Ready);
    assert_eq!(app.sessions()[0].id.as_str(), "loaded");
    let warning = app.warning().expect("partial warning");
    assert!(!warning.contains('\n'));
    assert!(!warning.contains('\u{1b}'));
    assert!(warning.chars().count() <= 240);
    assert!(warning.starts_with("app-server request failed: second page [31m"));
}

#[test]
fn reads_reply_lines() {
    assert_eq!(
        read_reply("{\"jsonrpc\":\"2.0\",\"id\":3,\"result\":{\"a\":1}}\n", 3).unwrap(),
        Some("{\"a\":1}".to_owned())
    );
    assert_eq!(
        read_reply("{\"jsonrpc\":\"2.0\",\"id\":2,\"result\":{}}", 3).unwrap(),
        None
    );
    assert_eq!(
        read_reply("{\"jsonrpc\":\"2.0\",\"method\":\"note\"}", 3).unwrap(),
        None
    );
    assert_eq!(
        read_reply("{\"id\":3,\"error\":{\"code\":1,\"message\":\"boom\"}}", 3)
            .unwrap_err()
            .message(),
        "app-server request failed: boom"
    );
    assert_eq!(
        read_reply("{\"id\":3,\"error\":{\"code\":1}}", 3)
            .unwrap_err()
            .message(),
        "app-server returned a malformed JSON-RPC error"
    );
    assert_eq!(
        read_reply("{\"id\":3}", 3).unwrap_err().message(),
        "app-server response did not contain a result"
    );
    let invalid = read_reply("not json", 3).unwrap_err();
    assert!(invalid
        .message()
        .starts_with("app-server returned invalid JSON: "));
}

#[test]
fn waits_for_replies_no_longer_than_the_deadline() {
    assert_eq!(reply_wait(false, 0, 10_000, 50), ReplyWait::Listen(50));
    assert_eq!(reply_wait(false, 9_980, 10_000, 50), ReplyWait::Listen(20));
    assert_eq!(reply_wait(false, 10_000, 10_000, 50), ReplyWait::TimedOut);
    assert_eq!(reply_wait(false, 25_000, 10_000, 50), ReplyWait::TimedOut);
    assert_eq!(reply_wait(true, 0, 10_000, 50), ReplyWait::Cancelled);
    assert_eq!(reply_wait(true, 25_000, 10_000, 50), ReplyWait::Cancelled);
    assert_eq!(reply_wait(false, 0, 0, 50), ReplyWait::TimedOut);
}
