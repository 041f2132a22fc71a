use kvs::KvError;
use kvs::protocol::Operation;
use kvs::protocol::Response;
use kvs::protocol::ResponseStatus;
use kvs::server::EngineChoice;
use kvs::server::PoolChoice;
use kvs::server::check_engine_choice;
use kvs::server::handle_operation;
use kvs::server::parse_engine_name;
use kvs::server::parse_pool_name;
use kvs::store::KvStore;

fn s(x: &str) -> String {
    String::from(x)
}

#[test]
fn put_then_get_over_the_engine() {
    let mut store = KvStore::new();
    let r = handle_operation(Operation::Put(s("key1"), s("value1")), &mut store);
    assert_eq!(r.unwrap(), None);
    let r = handle_operation(Operation::Get(s("key1")), &mut store);
    assert_eq!(r.unwrap(), Some(s("value1")));
}

#[test]
fn get_missing_answers_okay_without_data() {
    let mut store = KvStore::new();
    let r = handle_operation(Operation::Get(s("missing")), &mut store);
    assert_eq!(r.unwrap(), None);
    let resp = Response::for_result(Ok(None));
    assert_eq!(resp.to_text(), "OK");
}

#[test]
fn remove_missing_answers_fail() {
    let mut store = KvStore::new();
    let r = handle_operation(Operation::Remove(s("nope")), &mut store);
    assert_eq!(r.unwrap_err(), KvError::KeyNotFound);
    let resp = Response::for_result(Err(KvError::KeyNotFound));
    assert_eq!(resp.status, ResponseStatus::Fail);
    assert_eq!(resp.to_text(), "FAIL");
}

#[test]
fn full_round_trip_texts() {
    let mut store = KvStore::new();
    let op = Operation::from_text(s("set key1 value1\n")).unwrap();
    let resp = Response::for_result(handle_operation(op, &mut store));
    assert_eq!(resp.to_text(), "OK");
    let op = Operation::from_text(s("get key1\n")).unwrap();
    let resp = Response::for_result(handle_operation(op, &mut store));
    assert_eq!(resp.to_text(), "OK value1");
    let op = Operation::from_text(s("rm key1\n")).unwrap();
    let resp = Response::for_result(handle_operation(op, &mut store));
    assert_eq!(resp.to_text(), "OK");
    let op = Operation::from_text(s("get key1\n")).unwrap();
    let resp = Response::for_result(handle_operation(op, &mut store));
    assert_eq!(resp.to_text(), "OK");
}

#[test]
fn engine_names_parse() {
    assert_eq!(parse_engine_name("kvs").unwrap(), EngineChoice::Kvs);
    assert_eq!(parse_engine_name("sled").unwrap(), EngineChoice::Sled);
    assert_eq!(parse_engine_name("lmdb").unwrap_err(), KvError::ConfigInvalid);
}

#[test]
fn pool_names_parse() {
    assert_eq!(parse_pool_name("naive").unwrap(), PoolChoice::Naive);
    assert_eq!(parse_pool_name("queued").unwrap(), PoolChoice::Queued);
    assert_eq!(parse_pool_name("rayon").unwrap(), PoolChoice::Rayon);
    assert_eq!(parse_pool_name("forkjoin").unwrap_err(), KvError::ConfigInvalid);
}

#[test]
fn sentinel_rules_the_engine() {
    assert_eq!(check_engine_choice("", "kvs").unwrap(), true);
    assert_eq!(check_engine_choice("kvs", "kvs").unwrap(), false);
    assert_eq!(check_engine_choice("kvs", "sled").unwrap_err(), KvError::EngineMismatch);
    assert_eq!(check_engine_choice("sled", "kvs").unwrap_err(), KvError::EngineMismatch);
}

#[test]
fn error_texts_name_the_failure() {
    assert_eq!(KvError::KeyNotFound.as_text(), "Key not found");
    assert_eq!(
        KvError::EngineMismatch.as_text(),
        "Server cannot be started with a different engine than before"
    );
    assert_eq!(KvError::ConfigInvalid.as_text(), "Invalid configuration");
}
