use chrono::Utc;
use claude_sessions::data::{Label, Session, Store};
use claude_sessions::storage::{Storage, StorageError};
use claude_sessions::timestamp::Timestamp;
use std::path::PathBuf;

fn create_test_session(id: &str) -> Session {
    let now = Utc::now();
    Session {
        session_id: id.to_string(),
        path: "/test/path".to_string(),
        description: None,
        created_at: Timestamp::from_unix(now.timestamp(), now.timestamp_subsec_nanos()).unwrap(),
    }
}

fn test_storage() -> Storage {
    Storage::with_path(PathBuf::from("/tmp/session-labels/storage.json"))
}

// Load

#[test]
fn test_load_missing_file_returns_empty_store() {
    let storage = test_storage();
    let store = storage.load(None).unwrap();

    assert!(store.is_empty());
}

#[test]
fn test_load_empty_file_returns_empty_store() {
    let storage = test_storage();
    let store = storage.load(Some("")).unwrap();

    assert!(store.is_empty());
}

#[test]
fn test_load_whitespace_only_file_returns_empty_store() {
    let storage = test_storage();
    let store = storage.load(Some("   \n\t  \n  ")).unwrap();

    assert!(store.is_empty());
}

#[test]
fn test_load_valid_json() {
    let storage = test_storage();
    let json = r#"{"labels":{"my-label":{"description":"Test","sessions":[]}}}"#;
    let store = storage.load(Some(json)).unwrap();

    assert!(store.contains_label("my-label"));
    assert_eq!(
        store.get_label("my-label").unwrap().description,
        Some("Test".to_string())
    );
}

#[test]
fn test_load_corrupt_json_returns_error() {
    let storage = test_storage();
    let result = storage.load(Some("{ not valid json }"));

    assert!(result.is_err());
}

#[test]
fn test_load_partial_json_returns_error() {
    let storage = test_storage();
    let result = storage.load(Some(r#"{"labels":{"#));

    assert!(result.is_err());
}

// Save

#[test]
fn test_save_creates_file() {
    let storage = test_storage();
    let store = Store::new();
    let content = storage.save(&store);

    assert!(storage.load(Some(&content)).unwrap().is_empty());
}

#[test]
fn test_save_writes_valid_json() {
    let storage = test_storage();
    let mut store = Store::new();
    let mut label = Label::new(Some("My description".to_string()));
    label.add_session(create_test_session("test-session"));
    store.insert_label("test-label".to_string(), label);

    let content = storage.save(&store);
    let loaded = storage.load(Some(&content)).unwrap();

    assert!(loaded.contains_label("test-label"));
    assert_eq!(
        loaded.get_label("test-label").unwrap().description,
        Some("My description".to_string())
    );
    assert_eq!(loaded.get_label("test-label").unwrap().sessions.len(), 1);
}

#[test]
fn test_save_overwrites_existing_file() {
    let storage = test_storage();
    let mut file = String::from("old content");
    assert!(storage.load(Some(&file)).is_err());

    let store = Store::new();
    file = storage.save(&store);

    assert!(file.contains("labels"));
    assert!(!file.contains("old content"));
}

// Round trips

#[test]
fn test_save_load_roundtrip_empty_store() {
    let storage = test_storage();
    let store = Store::new();

    let content = storage.save(&store);
    let loaded = storage.load(Some(&content)).unwrap();

    assert!(loaded.is_empty());
}

#[test]
fn test_save_load_roundtrip_with_data() {
    let storage = test_storage();

    let mut store = Store::new();

    let mut label1 = Label::new(Some("First label".to_string()));
    label1.add_session(create_test_session("sess1"));
    label1.add_session(create_test_session("sess2"));

    let mut label2 = Label::new(None);
    label2.add_session(create_test_session("sess3"));

    store.insert_label("label-1".to_string(), label1);
    store.insert_label("label-2".to_string(), label2);

    let content = storage.save(&store);
    let loaded = storage.load(Some(&content)).unwrap();

    assert_eq!(loaded.len(), 2);

    let loaded_label1 = loaded.get_label("label-1").unwrap();
    assert_eq!(loaded_label1.description, Some("First label".to_string()));
    assert_eq!(loaded_label1.sessions.len(), 2);

    let loaded_label2 = loaded.get_label("label-2").unwrap();
    assert_eq!(loaded_label2.description, None);
    assert_eq!(loaded_label2.sessions.len(), 1);
}

// Path

#[test]
fn test_path_returns_configured_path() {
    let expected = PathBuf::from("/custom/path/data.json");
    let storage = Storage::with_path(expected.clone());

    assert_eq!(storage.path(), &expected);
}

// Further cases

#[test]
fn load_rejects_document_without_labels() {
    let storage = test_storage();
    assert!(matches!(storage.load(Some("{}")), Err(StorageError::Malformed)));
    assert!(matches!(storage.load(Some("[]")), Err(StorageError::Malformed)));
}

#[test]
fn load_rejects_session_missing_a_field() {
    let storage = test_storage();
    let json = r#"{"labels":{"a":{"sessions":[{"session_id":"x","created_at":"2024-06-15T12:00:00Z"}]}}}"#;
    assert!(matches!(storage.load(Some(json)), Err(StorageError::Malformed)));
}

#[test]
fn load_rejects_bad_timestamp() {
    let storage = test_storage();
    let json = r#"{"labels":{"a":{"sessions":[{"session_id":"x","path":"/p","created_at":"yesterday"}]}}}"#;
    assert!(matches!(storage.load(Some(json)), Err(StorageError::Malformed)));
}

#[test]
fn load_reads_null_description_as_absent_and_ignores_unknown_members() {
    let storage = test_storage();
    let json = r#"{"labels":{"a":{"description":null,"extra":1,"sessions":[{"session_id":"x","path":"/p","description":null,"created_at":"2024-06-15T14:00:00+02:00"}]}}}"#;
    let store = storage.load(Some(json)).unwrap();
    let label = store.get_label("a").unwrap();
    assert_eq!(label.description, None);
    assert_eq!(label.sessions[0].description, None);
    assert_eq!(label.sessions[0].created_at.secs(), 1718452800);
    assert_eq!(label.sessions[0].created_at.nanos(), 0);
}

#[test]
fn load_accepts_leading_and_trailing_white_space_around_json() {
    let storage = test_storage();
    let store = storage.load(Some("\n  {\"labels\":{}}  \n")).unwrap();
    assert!(store.is_empty());
}

#[test]
fn load_treats_unicode_white_space_as_blank() {
    let storage = test_storage();
    let store = storage.load(Some("\u{3000}\u{a0}\u{2028}")).unwrap();
    assert!(store.is_empty());
}

#[test]
fn saved_text_writes_timestamps_in_rfc3339() {
    let storage = test_storage();
    let mut store = Store::new();
    let mut label = Label::new(None);
    label.add_session(Session {
        session_id: "s".to_string(),
        path: "/p".to_string(),
        description: None,
        created_at: Timestamp::from_unix(1718452800, 0).unwrap(),
    });
    store.insert_label("a".to_string(), label);
    let content = storage.save(&store);
    assert!(content.contains("\"2024-06-15T12:00:00Z\""));
    assert!(!content.contains("description"));
}
