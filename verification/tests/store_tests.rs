use kvs::KvError;
use kvs::codec::Command;
use kvs::store::KvStore;

fn s(x: &str) -> String {
    String::from(x)
}

#[test]
fn set_then_get_round_trip() {
    let mut store = KvStore::new();
    store.set(s("key1"), s("value1"));
    assert_eq!(store.get(s("key1")).unwrap(), Some(s("value1")));
}

#[test]
fn get_missing_is_none() {
    let store = KvStore::new();
    assert_eq!(store.get(s("missing")).unwrap(), None);
}

#[test]
fn overwrite_keeps_last_value() {
    let mut store = KvStore::new();
    store.set(s("k"), s("v1"));
    store.set(s("k"), s("v2"));
    assert_eq!(store.get(s("k")).unwrap(), Some(s("v2")));
}

#[test]
fn remove_then_get_is_none() {
    let mut store = KvStore::new();
    store.set(s("k"), s("v"));
    assert!(store.remove(s("k")).is_ok());
    assert_eq!(store.get(s("k")).unwrap(), None);
}

#[test]
fn second_remove_reports_key_not_found() {
    let mut store = KvStore::new();
    store.set(s("k"), s("v"));
    assert!(store.remove(s("k")).is_ok());
    assert_eq!(store.remove(s("k")).unwrap_err(), KvError::KeyNotFound);
}

#[test]
fn remove_missing_reports_key_not_found() {
    let mut store = KvStore::new();
    assert_eq!(store.remove(s("nope")).unwrap_err(), KvError::KeyNotFound);
}

#[test]
fn interleaved_writes_read_as_last_operation() {
    let mut store = KvStore::new();
    store.set(s("a"), s("1"));
    store.set(s("b"), s("2"));
    assert_eq!(store.get(s("a")).unwrap(), Some(s("1")));
    store.set(s("a"), s("3"));
    assert_eq!(store.get(s("a")).unwrap(), Some(s("3")));
    store.remove(s("a")).unwrap();
    assert_eq!(store.get(s("a")).unwrap(), None);
    assert_eq!(store.get(s("b")).unwrap(), Some(s("2")));
    store.set(s("a"), s("4"));
    assert_eq!(store.get(s("a")).unwrap(), Some(s("4")));
}

#[test]
fn reopen_from_logged_lines_preserves_reads() {
    let mut store = KvStore::new();
    let mut lines: Vec<String> = Vec::new();
    lines.push(store.set(s("a"), s("1")));
    lines.push(store.set(s("b"), s("2")));
    lines.push(store.remove(s("a")).unwrap());
    lines.push(store.set(s("c"), s("3")));
    lines.push(store.set(s("b"), s("2b")));

    let reopened = KvStore::open(&lines).unwrap();
    assert_eq!(reopened.get(s("a")).unwrap(), None);
    assert_eq!(reopened.get(s("b")).unwrap(), Some(s("2b")));
    assert_eq!(reopened.get(s("c")).unwrap(), Some(s("3")));
    assert_eq!(reopened.index_len(), 2);
}

#[test]
fn open_rejects_a_corrupt_line() {
    let mut store = KvStore::new();
    let mut lines: Vec<String> = Vec::new();
    lines.push(store.set(s("a"), s("1")));
    lines.push(s("this is no record"));
    match KvStore::open(&lines) {
        Ok(_) => panic!("a corrupt line was accepted"),
        Err(e) => assert_eq!(e, KvError::Corruption),
    }
}

#[test]
fn open_empty_log_is_empty_store() {
    let lines: Vec<String> = Vec::new();
    let store = KvStore::open(&lines).unwrap();
    assert_eq!(store.index_len(), 0);
    assert_eq!(store.log_len(), 0);
}

#[test]
fn compaction_keeps_every_observable_value() {
    let mut store = KvStore::new();
    for i in 0..50 {
        store.set(format!("k{}", i), format!("v{}", i));
    }
    for i in 0..20 {
        store.remove(format!("k{}", i)).unwrap();
    }
    store.set(s("k20"), s("fresh"));
    let lines = store.compact();
    assert_eq!(lines.len(), 30);
    assert_eq!(store.log_len(), 30);
    assert_eq!(store.index_len(), 30);
    for i in 0..20 {
        assert_eq!(store.get(format!("k{}", i)).unwrap(), None);
    }
    assert_eq!(store.get(s("k20")).unwrap(), Some(s("fresh")));
    for i in 21..50 {
        assert_eq!(store.get(format!("k{}", i)).unwrap(), Some(format!("v{}", i)));
    }
    for line in &lines {
        match Command::from_line(line).unwrap() {
            Command::Put(_) => {},
            Command::Remove(_) => panic!("a tombstone survived compaction"),
        }
    }
}

#[test]
fn thousand_records_compact_to_live_half() {
    let mut store = KvStore::new();
    for i in 0..1000 {
        store.set(format!("k{}", i), format!("v{}", i));
    }
    assert!(store.needs_compaction());
    for i in 0..500 {
        store.remove(format!("k{}", i)).unwrap();
    }
    let lines = store.compact();
    assert_eq!(lines.len(), 500);
    assert!(!store.needs_compaction());
    for i in 0..500 {
        assert_eq!(store.get(format!("k{}", i)).unwrap(), None);
    }
    for i in 500..1000 {
        assert_eq!(store.get(format!("k{}", i)).unwrap(), Some(format!("v{}", i)));
    }
    let reopened = KvStore::open(&lines).unwrap();
    for i in 500..1000 {
        assert_eq!(reopened.get(format!("k{}", i)).unwrap(), Some(format!("v{}", i)));
    }
}

#[test]
fn compaction_then_reopen_preserves_state() {
    let mut store = KvStore::new();
    store.set(s("x"), s("1"));
    store.set(s("y"), s("2"));
    store.set(s("x"), s("3"));
    store.remove(s("y")).unwrap();
    let lines = store.compact();
    assert_eq!(lines.len(), 1);
    let reopened = KvStore::open(&lines).unwrap();
    assert_eq!(reopened.get(s("x")).unwrap(), Some(s("3")));
    assert_eq!(reopened.get(s("y")).unwrap(), None);
}

#[test]
fn disjoint_keys_all_readable_and_counted() {
    let mut store = KvStore::new();
    for i in 0..64 {
        store.set(format!("w{}", i), format!("out{}", i));
    }
    assert_eq!(store.index_len(), 64);
    for i in 0..64 {
        assert_eq!(store.get(format!("w{}", i)).unwrap(), Some(format!("out{}", i)));
    }
}

#[test]
fn needs_compaction_crosses_threshold() {
    let mut store = KvStore::new();
    for i in 0..500 {
        store.set(s("same"), format!("v{}", i));
    }
    assert!(!store.needs_compaction());
    store.set(s("same"), s("last"));
    assert!(store.needs_compaction());
    assert_eq!(store.index_len(), 1);
}
