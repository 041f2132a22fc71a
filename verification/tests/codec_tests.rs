use kvs::codec::Command;
use kvs::codec::Pair;

fn put(k: &str, v: &str) -> Command {
    Command::Put(Pair::new(String::from(k), String::from(v)))
}

#[test]
fn put_record_text() {
    let line = put("key1", "value1").to_line();
    assert_eq!(line, "{\"Set\":{\"k\":\"key1\",\"v\":\"value1\"}}");
}

#[test]
fn remove_record_text() {
    let line = Command::Remove(String::from("key1")).to_line();
    assert_eq!(line, "{\"Remove\":\"key1\"}");
}

#[test]
fn escapes_quote_and_backslash() {
    let line = put("a\"b", "c\\d").to_line();
    assert_eq!(line, "{\"Set\":{\"k\":\"a\\\"b\",\"v\":\"c\\\\d\"}}");
}

#[test]
fn escapes_newline_tab_return() {
    let line = put("a\nb", "c\td\re").to_line();
    assert_eq!(line, "{\"Set\":{\"k\":\"a\\nb\",\"v\":\"c\\td\\re\"}}");
    assert!(!line.contains('\n'));
}

#[test]
fn escapes_other_control_chars() {
    let line = put("a\u{01}b", "c\u{1f}d").to_line();
    assert_eq!(line, "{\"Set\":{\"k\":\"a\\u0001b\",\"v\":\"c\\u001fd\"}}");
}

#[test]
fn parses_put_record() {
    let cmd = Command::from_line("{\"Set\":{\"k\":\"key1\",\"v\":\"value1\"}}").unwrap();
    match cmd {
        Command::Put(p) => {
            assert_eq!(p.key(), "key1");
            assert_eq!(p.value(), "value1");
        },
        Command::Remove(_) => panic!("parsed as a removal"),
    }
}

#[test]
fn parses_remove_record() {
    let cmd = Command::from_line("{\"Remove\":\"key1\"}").unwrap();
    match cmd {
        Command::Put(_) => panic!("parsed as an assignment"),
        Command::Remove(k) => assert_eq!(k, "key1"),
    }
}

#[test]
fn round_trips_awkward_strings() {
    let cases = [
        ("plain", "value"),
        ("with space", "and\ttab"),
        ("quo\"te", "back\\slash"),
        ("new\nline", "re\rturn"),
        ("\u{0}\u{1}\u{1f}", "mixed\u{7}end"),
        ("", ""),
        ("unicode κλειδί", "τιμή ✓"),
    ];
    for (k, v) in cases {
        let line = put(k, v).to_line();
        assert!(!line.contains('\n'));
        match Command::from_line(&line).unwrap() {
            Command::Put(p) => {
                assert_eq!(p.key(), k);
                assert_eq!(p.value(), v);
            },
            Command::Remove(_) => panic!("round trip changed the command kind"),
        }
        let rline = Command::Remove(String::from(k)).to_line();
        match Command::from_line(&rline).unwrap() {
            Command::Remove(k2) => assert_eq!(k2, k),
            Command::Put(_) => panic!("round trip changed the command kind"),
        }
    }
}

#[test]
fn rejects_garbage_lines() {
    assert!(Command::from_line("").is_none());
    assert!(Command::from_line("not json").is_none());
    assert!(Command::from_line("{\"Set\":{\"k\":\"a\"}}").is_none());
    assert!(Command::from_line("{\"Set\":{\"k\":\"a\",\"v\":\"b\"}").is_none());
    assert!(Command::from_line("{\"Remove\":\"a\"} ").is_none());
    assert!(Command::from_line("{\"Remove\":\"a\\x\"}").is_none());
    assert!(Command::from_line("{\"Remove\":\"a\nb\"}").is_none());
    assert!(Command::from_line("{\"Remove\":\"a\"").is_none());
}
