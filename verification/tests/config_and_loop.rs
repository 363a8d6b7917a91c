use move_language_server::config::{Config, ConfigWarning};
use move_language_server::db::{AnalysisChange, FileMap, RootDatabase};
use move_language_server::errors::{Diagnostic, FileDiagnostic};
use move_language_server::json::parse_config_update;
use move_language_server::leaked_fpath;
use move_language_server::main_loop::{
    compute_file_diagnostics, diagnostics_to_publishes, files_to_recheck, on_config_response,
    on_notification, LoopAction, LoopState, LspError, NotificationEvent, OpenedFiles,
};
use move_language_server::position::{Position, Range};

fn b(s: &str) -> Vec<u8> {
    s.as_bytes().to_vec()
}

fn s(v: &[u8]) -> String {
    String::from_utf8_lossy(v).to_string()
}

fn dummy_diagnostic() -> Diagnostic {
    Diagnostic {
        range: Range {
            start: Position { line: 0, character: 0 },
            end: Position { line: 0, character: 1 },
        },
        message: b("boom"),
        related: Vec::new(),
    }
}

#[test]
fn config_update_from_json_sets_each_valid_field() {
    let value: serde_json::Value = serde_json::from_str(
        r#"{
            "dialect": "starcoin",
            "stdlib_folder": "/stdlib",
            "modules_folders": ["/modules/a", "/modules/b"],
            "sender_address": "0xAB"
        }"#,
    )
    .unwrap();
    let upd = parse_config_update(&value);
    assert_eq!(upd.dialect.as_deref(), Some(b("starcoin").as_slice()));
    assert_eq!(upd.stdlib_folder.as_deref(), Some(b("/stdlib").as_slice()));
    assert_eq!(upd.sender_address.as_deref(), Some(b("0xAB").as_slice()));
    let folders = upd.modules_folders.clone().unwrap();
    assert_eq!(folders.len(), 2);

    let mut config = Config::default();
    let warnings = config.update(upd, true, &vec![true, false]);
    assert!(matches!(
        config.dialect_name,
        move_language_server::dialects::DialectName::Starcoin
    ));
    assert_eq!(s(config.stdlib_folder.as_ref().unwrap()), "/stdlib");
    assert_eq!(config.modules_folders.len(), 1);
    assert_eq!(s(&config.modules_folders[0]), "/modules/a");
    assert_eq!(s(&config.sender_address.original), "0xAB");
    assert_eq!(
        s(&config.sender_address.normalized_original),
        "0x000000000000000000000000000000ab"
    );
    assert!(warnings.contains(&ConfigWarning::ModulesFolderMissing));
    assert!(!warnings.contains(&ConfigWarning::UnknownDialect));
}

#[test]
fn config_update_reverts_invalid_fields_and_warns() {
    let value: serde_json::Value = serde_json::from_str(
        r#"{
            "dialect": "cosmos",
            "stdlib_folder": "/nowhere",
            "sender_address": "xyz"
        }"#,
    )
    .unwrap();
    let upd = parse_config_update(&value);
    let mut config = Config::default();
    let before_sender = config.sender_address.normalized_original.clone();
    let warnings = config.update(upd, false, &Vec::new());
    assert!(matches!(
        config.dialect_name,
        move_language_server::dialects::DialectName::Libra
    ));
    assert!(config.stdlib_folder.is_none());
    assert_eq!(config.sender_address.normalized_original, before_sender);
    assert!(warnings.contains(&ConfigWarning::UnknownDialect));
    assert!(warnings.contains(&ConfigWarning::StdlibFolderMissing));
    assert!(warnings.contains(&ConfigWarning::InvalidSenderAddress));
}

#[test]
fn config_update_ignores_missing_fields() {
    let value: serde_json::Value = serde_json::from_str("{}").unwrap();
    let upd = parse_config_update(&value);
    assert!(upd.dialect.is_none());
    assert!(upd.stdlib_folder.is_none());
    assert!(upd.modules_folders.is_none());
    assert!(upd.sender_address.is_none());
    let mut config = Config::default();
    let warnings = config.update(upd, false, &Vec::new());
    assert!(warnings.is_empty());
    assert_eq!(s(&config.sender_address.original), "0x1");
}

#[test]
fn database_changes_are_atomic_batches() {
    let mut db = RootDatabase { config: Config::default(), available_files: FileMap::new() };
    let mut change = AnalysisChange::new();
    change.add_file(b("/a.move"), b("module A {}"));
    change.add_file(b("/b.move"), b("module B {}"));
    change.update_file(b("/a.move"), b("module A2 {}"));
    change.remove_file(b("/b.move"));
    db.apply_change(change);
    assert_eq!(s(db.available_files.get(&b("/a.move")).unwrap()), "module A2 {}");
    assert!(db.available_files.get(&b("/b.move")).is_none());
}

#[test]
fn module_files_cover_stdlib_and_module_folders() {
    let mut config = Config::default();
    config.stdlib_folder = Some(b("/stdlib"));
    config.modules_folders = vec![b("/modules")];
    let db = RootDatabase {
        config,
        available_files: FileMap {
            entries: vec![
                (b("/stdlib/debug.move"), b("module Debug {}")),
                (b("/elsewhere/x.move"), b("module X {}")),
                (b("/modules/record.move"), b("module Record {}")),
            ],
        },
    };
    let files = db.module_files();
    assert_eq!(files.len(), 2);
    assert_eq!(s(&files[0].0), "/stdlib/debug.move");
    assert_eq!(s(&files[1].0), "/modules/record.move");
}

#[test]
fn diagnostics_batch_clears_before_it_reports() {
    let files = vec![b("/dep.move"), b("/current.move")];
    let dep_fd = FileDiagnostic { fpath: b("/dep.move"), diagnostic: Some(dummy_diagnostic()) };
    let checked = vec![Some(dep_fd), None];
    let out = compute_file_diagnostics(&files, checked);
    assert_eq!(out.len(), 3);
    assert_eq!(s(&out[0].fpath), "/dep.move");
    assert!(out[0].diagnostic.is_none());
    assert_eq!(s(&out[1].fpath), "/dep.move");
    assert!(out[1].diagnostic.is_some());
    // the clean current file receives its clear-only record
    assert_eq!(s(&out[2].fpath), "/current.move");
    assert!(out[2].diagnostic.is_none());
}

#[test]
fn publish_fan_out_sends_one_message_per_file() {
    let records = vec![
        FileDiagnostic { fpath: b("/a.move"), diagnostic: None },
        FileDiagnostic { fpath: b("/b.move"), diagnostic: Some(dummy_diagnostic()) },
    ];
    let publishes = diagnostics_to_publishes(records);
    assert_eq!(publishes.len(), 2);
    assert_eq!(s(&publishes[0].fpath), "/a.move");
    assert!(publishes[0].diagnostics.is_empty());
    assert_eq!(s(&publishes[1].fpath), "/b.move");
    assert_eq!(publishes[1].diagnostics.len(), 1);
}

#[test]
fn notifications_track_overlays_and_pull_configuration() {
    let mut state = LoopState::new();
    let action = on_notification(
        &mut state,
        NotificationEvent::DidOpen(b("/a.move"), b("module A {}")),
    );
    assert!(matches!(action, LoopAction::OpenOverlay(_, _)));
    assert_eq!(state.opened_files.files().len(), 1);

    let action = on_notification(
        &mut state,
        NotificationEvent::DidChange(b("/a.move"), Some(b("module A2 {}"))),
    );
    assert!(matches!(action, LoopAction::ChangeOverlay(_, _)));
    assert_eq!(state.opened_files.files().len(), 1);

    let action = on_notification(&mut state, NotificationEvent::DidChange(b("/a.move"), None));
    assert!(matches!(action, LoopAction::ClientError));

    let action = on_notification(&mut state, NotificationEvent::DidChangeConfiguration);
    match action {
        LoopAction::SendConfigRequest(id) => {
            assert_eq!(id, 1);
            assert_eq!(state.configuration_request_id, Some(1));
        }
        _ => panic!("a configuration pull request was expected"),
    }

    // an unrelated response changes nothing
    assert!(!on_config_response(&mut state, 7, true));
    assert_eq!(state.configuration_request_id, Some(1));
    // the correlated response clears the id and triggers the rebuild
    assert!(on_config_response(&mut state, 1, true));
    assert!(state.configuration_request_id.is_none());

    let action = on_notification(&mut state, NotificationEvent::DidClose(b("/a.move")));
    assert!(matches!(action, LoopAction::Nothing));
    assert_eq!(state.opened_files.files().len(), 0);
}

#[test]
fn recheck_covers_open_files_and_the_project_database() {
    let mut opened = OpenedFiles::new();
    opened.add(b("/open.move"));
    let mut config = Config::default();
    config.modules_folders = vec![b("/modules")];
    let db = RootDatabase {
        config,
        available_files: FileMap { entries: vec![(b("/modules/record.move"), b("module R {}"))] },
    };
    let files = files_to_recheck(&opened, &db);
    assert_eq!(files.len(), 2);
    assert_eq!(s(&files[0]), "/open.move");
    assert_eq!(s(&files[1]), "/modules/record.move");
}

#[test]
fn loop_state_with_config_request_id_waits_for_it() {
    let state = LoopState::with_config_request_id(9);
    assert_eq!(state.configuration_request_id, Some(9));
    assert_eq!(state.next_request_id, 0);
}

#[test]
fn lsp_error_keeps_its_code() {
    let e = LspError::new(LspError::UNKNOWN_FILE, b("unknown file"));
    assert_eq!(e.code, -32900);
    assert_eq!(s(&e.message), "unknown file");
}

#[test]
fn leaked_fpath_returns_a_stable_copy() {
    let p = b("/a/b.move");
    let handle = leaked_fpath(&p);
    assert_eq!(handle, p);
}
