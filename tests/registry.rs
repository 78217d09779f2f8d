use pty_sessions::registry::{same_id, RegistryError, SessionTable};
use pty_sessions::session::{OutputReader, ReadOutcome, ReaderEvent};

fn ids(t: &SessionTable<u32>) -> Vec<String> {
    let mut v = t.list_sessions();
    v.sort();
    v
}

#[test]
fn new_table_is_empty() {
    let t: SessionTable<u32> = SessionTable::new();
    assert!(t.list_sessions().is_empty());
    assert!(!t.has_session("t1"));
}

#[test]
fn insert_then_has_and_list() {
    let mut t = SessionTable::new();
    assert!(t.check_available("t1").is_ok());
    assert!(t.insert_session("t1".to_string(), 1u32).is_ok());
    assert!(t.insert_session("t2".to_string(), 2u32).is_ok());
    assert!(t.has_session("t1"));
    assert!(t.has_session("t2"));
    assert!(!t.has_session("t3"));
    assert_eq!(ids(&t), vec!["t1".to_string(), "t2".to_string()]);
}

#[test]
fn duplicate_spawn_is_refused_and_keeps_session() {
    let mut t = SessionTable::new();
    t.insert_session("a".to_string(), 7u32).unwrap();
    match t.check_available("a") {
        Err(RegistryError::Duplicate(id)) => assert_eq!(id, "a"),
        _ => panic!("expected a duplicate error"),
    }
    match t.insert_session("a".to_string(), 8u32) {
        Err((RegistryError::Duplicate(id), back)) => {
            assert_eq!(id, "a");
            assert_eq!(back, 8);
        }
        _ => panic!("expected a duplicate error"),
    }
    assert_eq!(*t.lookup("a").ok().unwrap(), 7);
    assert_eq!(ids(&t), vec!["a".to_string()]);
}

#[test]
fn unknown_id_is_not_found_without_effect() {
    let mut t = SessionTable::new();
    t.insert_session("t1".to_string(), 1u32).unwrap();
    match t.lookup("ghost") {
        Err(RegistryError::NotFound(id)) => assert_eq!(id, "ghost"),
        _ => panic!("expected not found"),
    }
    match t.close_session("ghost") {
        Err(RegistryError::NotFound(id)) => assert_eq!(id, "ghost"),
        _ => panic!("expected not found"),
    }
    assert_eq!(ids(&t), vec!["t1".to_string()]);
    assert_eq!(*t.lookup("t1").ok().unwrap(), 1);
}

#[test]
fn close_unlists_at_once_and_later_ops_fail() {
    let mut t = SessionTable::new();
    t.insert_session("x".to_string(), 1u32).unwrap();
    t.insert_session("y".to_string(), 2u32).unwrap();
    t.insert_session("z".to_string(), 3u32).unwrap();
    assert_eq!(t.close_session("y").ok(), Some(2));
    assert_eq!(ids(&t), vec!["x".to_string(), "z".to_string()]);
    assert!(!t.has_session("y"));
    assert!(t.lookup("y").is_err());
    assert!(t.close_session("y").is_err());
    assert_eq!(*t.lookup("x").ok().unwrap(), 1);
    assert_eq!(*t.lookup("z").ok().unwrap(), 3);
    // the identifier may be used afresh
    assert!(t.insert_session("y".to_string(), 9u32).is_ok());
    assert_eq!(*t.lookup("y").ok().unwrap(), 9);
}

#[test]
fn spawn_close_sequence_tracks_presence() {
    let mut t = SessionTable::new();
    t.insert_session("s".to_string(), 1u32).unwrap();
    assert!(t.has_session("s"));
    t.close_session("s").ok().unwrap();
    assert!(!t.has_session("s"));
    assert!(t.insert_session("s".to_string(), 2u32).is_ok());
    assert!(t.has_session("s"));
    assert!(t.insert_session("s".to_string(), 3u32).is_err());
    assert!(t.has_session("s"));
    t.close_session("s").ok().unwrap();
    assert!(!t.has_session("s"));
}

#[test]
fn resize_target_lookup() {
    let mut t = SessionTable::new();
    t.insert_session("t1".to_string(), 5u32).unwrap();
    assert!(t.lookup("t1").is_ok());
    match t.lookup("ghost") {
        Err(RegistryError::NotFound(id)) => assert_eq!(id, "ghost"),
        _ => panic!("expected not found"),
    }
}

#[test]
fn two_registrations_under_one_id_one_wins() {
    let mut t = SessionTable::new();
    let first = t.insert_session("dup".to_string(), 1u32);
    let second = t.insert_session("dup".to_string(), 2u32);
    assert!(first.is_ok());
    assert!(second.is_err());
    assert_eq!(t.list_sessions(), vec!["dup".to_string()]);
    assert_eq!(*t.lookup("dup").ok().unwrap(), 1);
}

#[test]
fn error_messages() {
    let d = RegistryError::Duplicate("abc".to_string());
    assert_eq!(d.message(), "Session abc already exists");
    let n = RegistryError::NotFound("t1".to_string());
    assert_eq!(n.message(), "Session t1 not found");
}

#[test]
fn identifier_comparison() {
    assert!(same_id("", ""));
    assert!(same_id("t1", "t1"));
    assert!(!same_id("t1", "t2"));
    assert!(!same_id("t1", "t10"));
    assert!(same_id("héllo", "héllo"));
    assert!(!same_id("héllo", "hello"));
}

#[test]
fn spawn_write_close_scenario() {
    let mut t = SessionTable::new();
    assert!(t.check_available("t1").is_ok());
    assert!(t.insert_session("t1".to_string(), 1u32).is_ok());
    let mut reader = OutputReader::new("t1".to_string());
    // what the shell echoes after "echo hi\n" was written to the session
    let echoed = b"echo hi\r\nhi\r\n";
    let mut seen: Vec<u8> = Vec::new();
    match reader.on_read(ReadOutcome::Bytes(echoed.len()), echoed) {
        Some(ReaderEvent::Output(p)) => {
            assert_eq!(p.session_id, "t1");
            seen.extend_from_slice(&p.data);
        }
        _ => panic!("expected output"),
    }
    assert!(seen.windows(2).any(|w| w == b"hi"));
    assert_eq!(t.close_session("t1").ok(), Some(1));
    assert!(!t.list_sessions().contains(&"t1".to_string()));
    match t.lookup("t1") {
        Err(RegistryError::NotFound(id)) => assert_eq!(id, "t1"),
        _ => panic!("expected not found"),
    }
}
