use klib::errors::ExportError;
use klib::github::{
    authorization_value, check_put_response, collect_metadata, contents_url, find_metadata, is_url_same_text,
    note_path, put_args, Committer, Metadata, SyncAction, SyncPhase, SyncState,
};

const LISTING: &str = r#"[
    {"path": "Title.md", "sha": "abc123", "download_url": "https://raw.example/Title.md", "size": 3},
    {"path": "Other.md", "sha": "def456", "download_url": "https://raw.example/Other.md"}
]"#;

fn robot() -> Committer {
    Committer { name: "kindle robot".to_string(), email: "robot@kindle.com".to_string() }
}

fn books(pairs: &[(&str, &str)]) -> Vec<(String, String)> {
    pairs.iter().map(|(t, x)| (t.to_string(), x.to_string())).collect()
}

fn begin(pairs: &[(&str, &str)]) -> SyncState {
    let (state, action) =
        SyncState::start("owner".to_string(), "repo".to_string(), robot(), books(pairs));
    match action {
        SyncAction::Get(url) => assert_eq!(url, "https://api.github.com/repos/owner/repo/contents/"),
        other => panic!("unexpected: {:?}", other),
    }
    assert!(matches!(state.phase, SyncPhase::Listing));
    state
}

#[test]
fn unchanged_file_is_skipped() {
    let state = begin(&[("Title", "- text\n\n")]);
    let (state, action) = state.step(200, LISTING);
    match action.unwrap() {
        SyncAction::Get(url) => assert_eq!(url, "https://raw.example/Title.md"),
        other => panic!("unexpected: {:?}", other),
    }
    let (state, action) = state.step(200, "- text\n\n");
    match action.unwrap() {
        SyncAction::Done(put, unchanged) => {
            assert_eq!(put, 0);
            assert_eq!(unchanged, 1);
        }
        other => panic!("unexpected: {:?}", other),
    }
    assert_eq!(state.put_cnt, 0);
    assert_eq!(state.nmd_cnt, 1);
    assert!(matches!(state.phase, SyncPhase::Finished));
}

#[test]
fn changed_file_is_put_with_the_listed_hash() {
    let state = begin(&[("Title", "- text\n\n")]);
    let (state, _) = state.step(200, LISTING);
    let (state, action) = state.step(200, "- old text\n\n");
    match action.unwrap() {
        SyncAction::Put(url, args) => {
            assert_eq!(url, "https://api.github.com/repos/owner/repo/contents/Title.md");
            assert_eq!(args.sha, Some("abc123".to_string()));
            assert_eq!(args.message, "robot update note.");
            assert_eq!(args.content, "LSB0ZXh0Cgo=");
            assert_eq!(args.committer.name, "kindle robot");
            assert_eq!(args.committer.email, "robot@kindle.com");
        }
        other => panic!("unexpected: {:?}", other),
    }
    let (state, action) = state.step(200, "");
    match action.unwrap() {
        SyncAction::Done(put, unchanged) => {
            assert_eq!(put, 1);
            assert_eq!(unchanged, 0);
        }
        other => panic!("unexpected: {:?}", other),
    }
    assert!(matches!(state.phase, SyncPhase::Finished));
}

#[test]
fn object_listing_is_refused_before_any_put() {
    let state = begin(&[("Title", "- text\n\n")]);
    let (state, action) = state.step(200, r#"{"message": "Not Found"}"#);
    match action {
        Err(ExportError::InvalidMetaJson(shown)) => {
            assert_eq!(shown, "Object {\"message\": String(\"Not Found\")}")
        }
        other => panic!("unexpected: {:?}", other),
    }
    assert!(matches!(state.phase, SyncPhase::Finished));
    assert_eq!(state.put_cnt, 0);
}

#[test]
fn failed_listing_is_an_invalid_response() {
    let state = begin(&[("Title", "x")]);
    let (state, action) = state.step(404, LISTING);
    match action {
        Err(ExportError::InvalidResponse(url, status)) => {
            assert_eq!(url, "https://api.github.com/repos/owner/repo/contents/");
            assert_eq!(status, 404);
        }
        other => panic!("unexpected: {:?}", other),
    }
    assert!(matches!(state.phase, SyncPhase::Finished));
}

#[test]
fn listing_that_is_no_json_is_refused() {
    let state = begin(&[("Title", "x")]);
    let (_, action) = state.step(200, "<html>");
    assert!(matches!(action, Err(ExportError::SerdeJSON(_))));
}

#[test]
fn new_file_is_created_without_hash() {
    let state = begin(&[("Fresh", "- a\n\n")]);
    let (state, action) = state.step(200, LISTING);
    match action.unwrap() {
        SyncAction::Put(url, args) => {
            assert_eq!(url, "https://api.github.com/repos/owner/repo/contents/Fresh.md");
            assert_eq!(args.sha, None);
            assert_eq!(args.message, "robot create new note.");
            assert_eq!(args.content, "LSBhCgo=");
        }
        other => panic!("unexpected: {:?}", other),
    }
    let (_, action) = state.step(201, "{}");
    assert!(matches!(action, Ok(SyncAction::Done(1, 0))));
}

#[test]
fn refused_put_ends_the_work() {
    let state = begin(&[("Fresh", "- a\n\n"), ("Title", "- text\n\n")]);
    let (state, _) = state.step(200, "[]");
    let (state, action) = state.step(409, "");
    match action {
        Err(ExportError::InvalidResponse(url, status)) => {
            assert_eq!(url, "https://api.github.com/repos/owner/repo/contents/Fresh.md");
            assert_eq!(status, 409);
        }
        other => panic!("unexpected: {:?}", other),
    }
    assert!(matches!(state.phase, SyncPhase::Finished));
    assert_eq!(state.put_cnt, 0);
}

#[test]
fn failed_fetch_ends_the_work() {
    let state = begin(&[("Title", "- text\n\n")]);
    let (state, _) = state.step(200, LISTING);
    let (_, action) = state.step(500, "- text\n\n");
    match action {
        Err(ExportError::InvalidResponse(url, status)) => {
            assert_eq!(url, "https://raw.example/Title.md");
            assert_eq!(status, 500);
        }
        other => panic!("unexpected: {:?}", other),
    }
}

#[test]
fn books_are_handled_one_after_another() {
    let state = begin(&[("Title", "same"), ("Fresh", "new"), ("Other", "changed")]);
    let (state, action) = state.step(200, LISTING);
    assert!(matches!(action, Ok(SyncAction::Get(_))));
    let (state, action) = state.step(200, "same");
    match action.unwrap() {
        SyncAction::Put(url, args) => {
            assert_eq!(url, "https://api.github.com/repos/owner/repo/contents/Fresh.md");
            assert_eq!(args.sha, None);
        }
        other => panic!("unexpected: {:?}", other),
    }
    let (state, action) = state.step(201, "");
    match action.unwrap() {
        SyncAction::Get(url) => assert_eq!(url, "https://raw.example/Other.md"),
        other => panic!("unexpected: {:?}", other),
    }
    let (state, action) = state.step(200, "before");
    match action.unwrap() {
        SyncAction::Put(_, args) => assert_eq!(args.sha, Some("def456".to_string())),
        other => panic!("unexpected: {:?}", other),
    }
    let (state, action) = state.step(200, "");
    assert!(matches!(action, Ok(SyncAction::Done(2, 1))));
    let (state, action) = state.step(200, "");
    assert!(matches!(action, Ok(SyncAction::Done(2, 1))));
    assert_eq!(state.next, 3);
}

#[test]
fn nothing_to_publish_ends_after_the_listing() {
    let state = begin(&[]);
    let (_, action) = state.step(200, "[]");
    assert!(matches!(action, Ok(SyncAction::Done(0, 0))));
}

#[test]
fn listing_entries_are_collected() {
    let value: serde_json::Value = serde_json::from_str(LISTING).unwrap();
    let metas = collect_metadata(&value).unwrap();
    assert_eq!(metas.len(), 2);
    assert_eq!(metas[0].0, "Title.md");
    assert_eq!(metas[0].1.sha, "abc123");
    assert_eq!(metas[0].1.download_url, "https://raw.example/Title.md");
    assert_eq!(metas[1].0, "Other.md");
}

#[test]
fn listing_entry_without_string_fields_is_refused() {
    for text in [
        r#"[{"path": "a", "sha": "b"}]"#,
        r#"[{"path": "a", "sha": 1, "download_url": "c"}]"#,
        r#"[{"path": "a", "sha": "b", "download_url": null}]"#,
        r#"[{"path": "a", "sha": "b", "download_url": "c"}, 5]"#,
        r#""text""#,
        "null",
    ] {
        let value: serde_json::Value = serde_json::from_str(text).unwrap();
        match collect_metadata(&value) {
            Err(ExportError::InvalidMetaJson(shown)) => assert_eq!(shown, format!("{:?}", value)),
            other => panic!("unexpected: {:?}", other),
        }
    }
}

#[test]
fn later_entry_of_a_path_counts() {
    let meta = |sha: &str| Metadata { sha: sha.to_string(), download_url: format!("u-{}", sha) };
    let metas = vec![
        ("a.md".to_string(), meta("1")),
        ("b.md".to_string(), meta("2")),
        ("a.md".to_string(), meta("3")),
    ];
    let found = find_metadata(&metas, &"a.md".to_string()).unwrap();
    assert_eq!(found.sha, "3");
    assert_eq!(found.download_url, "u-3");
    assert_eq!(find_metadata(&metas, &"b.md".to_string()).unwrap().sha, "2");
    assert!(find_metadata(&metas, &"c.md".to_string()).is_none());
}

#[test]
fn authorisation_names_the_token() {
    assert_eq!(authorization_value("SECRET"), "token SECRET");
    assert_eq!(authorization_value(""), "token ");
    assert_eq!(klib::github::ACCEPT_VALUE, "application/vnd.github.v3+json");
    assert_eq!(klib::github::BASEURL, "https://api.github.com");
}

#[test]
fn addresses_and_paths() {
    assert_eq!(note_path("My Book"), "My Book.md");
    assert_eq!(contents_url("o", "r", "T.md"), "https://api.github.com/repos/o/r/contents/T.md");
    assert_eq!(contents_url("o", "r", ""), "https://api.github.com/repos/o/r/contents/");
}

#[test]
fn put_fields() {
    let created = put_args(&robot(), None, "hello");
    assert_eq!(created.message, "robot create new note.");
    assert_eq!(created.content, "aGVsbG8=");
    assert_eq!(created.sha, None);
    let updated = put_args(&robot(), Some("s".to_string()), "");
    assert_eq!(updated.message, "robot update note.");
    assert_eq!(updated.content, "");
    assert_eq!(updated.sha, Some("s".to_string()));
    assert_eq!(updated.committer.name, "kindle robot");
}

#[test]
fn fetched_text_is_compared() {
    assert!(is_url_same_text("u", 200, "abc", "abc").unwrap());
    assert!(!is_url_same_text("u", 200, "abc", "abd").unwrap());
    assert!(!is_url_same_text("u", 200, "abc", "abc\n").unwrap());
    match is_url_same_text("u", 201, "abc", "abc") {
        Err(ExportError::InvalidResponse(url, status)) => {
            assert_eq!(url, "u");
            assert_eq!(status, 201);
        }
        other => panic!("unexpected: {:?}", other),
    }
}

#[test]
fn put_answers() {
    assert!(check_put_response("u", 200).is_ok());
    assert!(check_put_response("u", 201).is_ok());
    match check_put_response("u", 422) {
        Err(ExportError::InvalidResponse(url, status)) => {
            assert_eq!(url, "u");
            assert_eq!(status, 422);
        }
        other => panic!("unexpected: {:?}", other),
    }
}

#[test]
fn states_made_by_start_and_step_are_consistent() {
    let state = begin(&[("Title", "- text\n\n")]);
    assert!(state.is_consistent());
    let (mut state, _) = state.step(200, LISTING);
    assert!(state.is_consistent());
    state.next = 1;
    assert!(!state.is_consistent());
    state.next = 0;
    state.put_cnt = 1;
    assert!(!state.is_consistent());
}
