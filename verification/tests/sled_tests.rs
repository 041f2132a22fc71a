use kvs::KvError;
use kvs::sled_engine::SledKvsEngine;

fn s(x: &str) -> String {
    String::from(x)
}

#[test]
fn sled_set_then_get() {
    let dir = tempfile::TempDir::new().unwrap();
    let mut eng = SledKvsEngine::open(dir.path().to_str().unwrap()).unwrap();
    eng.set(s("key1"), s("value1")).unwrap();
    assert_eq!(eng.get(s("key1")).unwrap(), Some(s("value1")));
    assert_eq!(eng.get(s("missing")).unwrap(), None);
}

#[test]
fn sled_overwrite_keeps_last_value() {
    let dir = tempfile::TempDir::new().unwrap();
    let mut eng = SledKvsEngine::open(dir.path().to_str().unwrap()).unwrap();
    eng.set(s("k"), s("v1")).unwrap();
    eng.set(s("k"), s("v2")).unwrap();
    assert_eq!(eng.get(s("k")).unwrap(), Some(s("v2")));
}

#[test]
fn sled_remove_then_remove_reports_key_not_found() {
    let dir = tempfile::TempDir::new().unwrap();
    let mut eng = SledKvsEngine::open(dir.path().to_str().unwrap()).unwrap();
    eng.set(s("k"), s("v")).unwrap();
    assert!(eng.remove(s("k")).is_ok());
    assert_eq!(eng.get(s("k")).unwrap(), None);
    assert_eq!(eng.remove(s("k")).unwrap_err(), KvError::KeyNotFound);
}

#[test]
fn sled_reopen_sees_written_values() {
    let dir = tempfile::TempDir::new().unwrap();
    let path = dir.path().to_str().unwrap().to_owned();
    {
        let mut eng = SledKvsEngine::open(&path).unwrap();
        eng.set(s("stays"), s("here")).unwrap();
    }
    let eng = SledKvsEngine::open(&path).unwrap();
    assert_eq!(eng.get(s("stays")).unwrap(), Some(s("here")));
}

#[test]
fn sled_open_on_a_plain_file_reports_io() {
    let file = tempfile::NamedTempFile::new().unwrap();
    match SledKvsEngine::open(file.path().to_str().unwrap()) {
        Ok(_) => panic!("opened a database inside a plain file"),
        Err(e) => assert_eq!(e, KvError::Io),
    }
}

#[test]
fn sled_serves_operations_over_the_engine_trait() {
    let dir = tempfile::TempDir::new().unwrap();
    let mut eng = SledKvsEngine::open(dir.path().to_str().unwrap()).unwrap();
    let r = kvs::server::handle_operation(
        kvs::protocol::Operation::Put(s("key1"), s("value1")),
        &mut eng,
    );
    assert_eq!(r.unwrap(), None);
    let r = kvs::server::handle_operation(kvs::protocol::Operation::Get(s("key1")), &mut eng);
    assert_eq!(r.unwrap(), Some(s("value1")));
    let r = kvs::server::handle_operation(kvs::protocol::Operation::Remove(s("gone")), &mut eng);
    assert_eq!(r.unwrap_err(), KvError::KeyNotFound);
}
