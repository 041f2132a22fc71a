use kvs::KvError;
use kvs::protocol::Operation;
use kvs::protocol::Response;
use kvs::protocol::ResponseStatus;
use kvs::protocol::remove_newline_from_end;

fn s(x: &str) -> String {
    String::from(x)
}

#[test]
fn operation_text_forms() {
    assert_eq!(Operation::Put(s("key1"), s("value1")).to_text(), "set key1 value1");
    assert_eq!(Operation::Get(s("key1")).to_text(), "get key1");
    assert_eq!(Operation::Remove(s("key1")).to_text(), "rm key1");
}

#[test]
fn operation_parses_with_trailing_newline() {
    match Operation::from_text(s("set key1 value1\n")).unwrap() {
        Operation::Put(k, v) => {
            assert_eq!(k, "key1");
            assert_eq!(v, "value1");
        },
        _ => panic!("wrong operation"),
    }
    match Operation::from_text(s("get key1\n")).unwrap() {
        Operation::Get(k) => assert_eq!(k, "key1"),
        _ => panic!("wrong operation"),
    }
    match Operation::from_text(s("rm key1\n")).unwrap() {
        Operation::Remove(k) => assert_eq!(k, "key1"),
        _ => panic!("wrong operation"),
    }
}

#[test]
fn operation_round_trips_through_text() {
    let ops = [
        Operation::Put(s("k"), s("v")),
        Operation::Get(s("a_key")),
        Operation::Remove(s("gone")),
    ];
    for op in ops {
        let mut line = op.clone().to_text();
        line.push('\n');
        let parsed = Operation::from_text(line).unwrap();
        assert_eq!(parsed.to_text(), op.to_text());
    }
}

#[test]
fn operation_rejects_bad_requests() {
    assert_eq!(Operation::from_text(s("put k v\n")).unwrap_err(), KvError::ProtocolParse);
    assert_eq!(Operation::from_text(s("set k\n")).unwrap_err(), KvError::ProtocolParse);
    assert_eq!(Operation::from_text(s("set k v extra\n")).unwrap_err(), KvError::ProtocolParse);
    assert_eq!(Operation::from_text(s("get a b\n")).unwrap_err(), KvError::ProtocolParse);
    assert_eq!(Operation::from_text(s("")).unwrap_err(), KvError::ProtocolParse);
    assert_eq!(Operation::from_text(s("\n")).unwrap_err(), KvError::ProtocolParse);
}

#[test]
fn response_text_forms() {
    let ok_bare = Response { status: ResponseStatus::Okay, data: None };
    assert_eq!(ok_bare.to_text(), "OK");
    let ok_data = Response { status: ResponseStatus::Okay, data: Some(s("value1")) };
    assert_eq!(ok_data.to_text(), "OK value1");
    let fail = Response { status: ResponseStatus::Fail, data: None };
    assert_eq!(fail.to_text(), "FAIL");
}

#[test]
fn response_parses_with_trailing_newline() {
    let r = Response::from_text(s("OK value1\n")).unwrap();
    assert_eq!(r.status, ResponseStatus::Okay);
    assert_eq!(r.data, Some(s("value1")));
    let r = Response::from_text(s("OK\n")).unwrap();
    assert_eq!(r.status, ResponseStatus::Okay);
    assert_eq!(r.data, None);
    let r = Response::from_text(s("FAIL\n")).unwrap();
    assert_eq!(r.status, ResponseStatus::Fail);
    assert_eq!(r.data, None);
}

#[test]
fn response_rejects_bad_lines() {
    assert_eq!(Response::from_text(s("NO\n")).unwrap_err(), KvError::ProtocolParse);
    assert_eq!(Response::from_text(s("OK a b\n")).unwrap_err(), KvError::ProtocolParse);
    assert_eq!(Response::from_text(s("\n")).unwrap_err(), KvError::ProtocolParse);
}

#[test]
fn status_parses_exactly() {
    assert_eq!(ResponseStatus::from_text(s("OK\n")).unwrap(), ResponseStatus::Okay);
    assert_eq!(ResponseStatus::from_text(s("FAIL")).unwrap(), ResponseStatus::Fail);
    assert_eq!(ResponseStatus::from_text(s("ok\n")).unwrap_err(), KvError::ProtocolParse);
}

#[test]
fn newline_stripping_takes_one_newline() {
    assert_eq!(remove_newline_from_end(s("abc\n")), "abc");
    assert_eq!(remove_newline_from_end(s("abc")), "abc");
    assert_eq!(remove_newline_from_end(s("abc\n\n")), "abc\n");
    assert_eq!(remove_newline_from_end(s("")), "");
    assert_eq!(remove_newline_from_end(s("\n")), "");
}
