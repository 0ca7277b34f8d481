use codem::client::session::{Session, SessionId};
use codem::client::session_store::SessionStore;
use std::time::{Duration, SystemTime};

#[test]
fn session_id_text_is_hyphenated_lowercase_hex() {
    let id = SessionId(0x0123456789abcdef0123456789abcdef);
    assert_eq!(id.to_string(), "01234567-89ab-cdef-0123-456789abcdef");
    assert_eq!(SessionId(0).to_string(), "00000000-0000-0000-0000-000000000000");
}

#[test]
fn fresh_ids_are_version_4_uuids() {
    let a = SessionId::new();
    let text = a.to_string();
    assert_eq!(text.len(), 36);
    assert_eq!(&text[14..15], "4");
    assert!("89ab".contains(&text[19..20]));
    assert_ne!(SessionId::new(), a);
}

#[test]
fn new_session_keeps_its_project_and_paths() {
    let s = Session::new("proj".to_string(), vec!["/a".to_string()]);
    assert_eq!(s.project_name(), "proj");
    assert_eq!(s.allowed_paths(), &["/a".to_string()][..]);
}

#[test]
fn recorded_path_passes_the_timestamp_check() {
    let mut s = Session::new("proj".to_string(), vec![]);
    let t = SystemTime::UNIX_EPOCH + Duration::from_secs(10);
    assert!(!s.check_timestamp(true, "/a/x"));
    s.update_timestamp("/a/x".to_string(), t);
    assert!(s.check_timestamp(true, "/a/x"));
    assert!(!s.check_timestamp(true, "/a/y"));
    assert!(s.check_timestamp(false, "/never/seen"));
    assert_eq!(s.file_timestamps().get("/a/x"), Some(&t));
}

#[test]
fn added_session_is_found_under_its_id() {
    let mut store = SessionStore::new();
    assert!(store.is_empty());
    let s = Session::new("p".to_string(), vec![]);
    let key = s.id().to_string();
    store.add_session(s);
    assert!(!store.is_empty());
    assert_eq!(store.get_session(&key).map(|s| s.project_name()), Some("p"));
    assert!(store.get_session("no such id").is_none());
}

#[test]
fn removed_session_is_gone() {
    let mut store = SessionStore::new();
    let s = Session::new("p".to_string(), vec![]);
    let key = s.id().to_string();
    store.add_session(s);
    store.remove_session(&key);
    assert!(store.get_session(&key).is_none());
    assert!(store.is_empty());
    store.remove_session(&key);
    assert!(store.is_empty());
}

#[test]
fn changes_through_a_borrowed_session_stay_in_the_store() {
    let mut store = SessionStore::new();
    let s = Session::new("p".to_string(), vec![]);
    let key = s.id().to_string();
    store.add_session(s);
    let t = SystemTime::UNIX_EPOCH;
    store.get_session_mut(&key).unwrap().update_timestamp("/f".to_string(), t);
    assert!(store.get_session(&key).unwrap().check_timestamp(true, "/f"));
    assert!(store.get_session_mut("missing").is_none());
}
