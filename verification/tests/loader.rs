use quickcfg::command::{Command, Output};
use quickcfg::error::{CoreError, DirectiveProblem};
use quickcfg::hierarchy::{load, load_layer, Data, Source};
use serde_yaml::{Mapping, Value};

fn key(s: &str) -> Value {
    Value::String(s.to_string())
}

fn text(path: &str, text: &str) -> Source {
    Source::Text { path: path.to_string(), text: text.to_string() }
}

#[test]
fn load_keeps_source_order_and_skips() {
    let sources = vec![
        text("one.yml", "foo: first\nonly1: 1\n"),
        Source::Skipped,
        text("two.yml", "foo: second\nseq: [x]\n"),
    ];
    let data = load(&sources).expect("both parse");
    assert_eq!(data.load::<String>("foo").unwrap(), Some("first".to_string()));
    assert_eq!(data.load_array::<String>("seq").unwrap(), vec!["x".to_string()]);
    assert_eq!(data.load::<Value>("only1").unwrap(), Some(Value::Number(1.into())));
    assert_eq!(data.load::<String>("nope").unwrap(), None);
}

#[test]
fn load_of_nothing_is_an_empty_hierarchy() {
    let data = load(&vec![]).expect("nothing to fail");
    assert_eq!(data.load::<Value>("a").unwrap(), None);
    assert_eq!(data.load_array::<Value>("a").unwrap(), Vec::<Value>::new());
    let data = load(&vec![Source::Skipped]).expect("nothing to fail");
    assert_eq!(data.load::<Value>("a").unwrap(), None);
}

#[test]
fn load_fails_on_an_unreadable_file() {
    let sources = vec![
        text("one.yml", "foo: first\n"),
        Source::Unreadable { path: "gone.yml".to_string(), message: "not found".to_string() },
        text("bad.yml", "- not a mapping"),
    ];
    match load(&sources) {
        Err(CoreError::FileAccess { path, message }) => {
            assert_eq!(path, "gone.yml");
            assert_eq!(message, "not found");
        }
        Err(other) => panic!("unexpected: {:?}", other),
        Ok(_) => panic!("partial hierarchy"),
    }
}

#[test]
fn load_fails_on_a_document_that_is_no_mapping() {
    match load(&vec![text("list.yml", "- a\n- b\n")]) {
        Err(error) => {
            assert!(matches!(&error, CoreError::Parse { path, .. } if path == "list.yml"));
            assert_eq!(
                error.message(),
                "failed to load: list.yml: exists, but is not a mapping"
            );
        }
        Ok(_) => panic!("a list is no layer"),
    }
}

#[test]
fn load_fails_on_malformed_text() {
    match load(&vec![text("ok.yml", "a: 1"), text("bad.yml", "a: [1, 2")]) {
        Err(CoreError::Parse { path, .. }) => assert_eq!(path, "bad.yml"),
        Err(other) => panic!("unexpected: {:?}", other),
        Ok(_) => panic!("malformed text is no layer"),
    }
}

#[test]
fn load_layer_reads_one_source() {
    assert_eq!(load_layer(&Source::Skipped).unwrap(), None);
    let mut expected = Mapping::new();
    expected.insert(key("a"), key("b"));
    assert_eq!(load_layer(&text("x", "a: b")).unwrap(), Some(expected));
}

#[test]
fn typed_lookup_of_a_wrong_shape_is_an_error() {
    let data = load(&vec![text("x", "n: [1]\ns: text\n")]).unwrap();
    match data.load::<String>("n") {
        Err(CoreError::Deserialization { key, .. }) => assert_eq!(key, "n"),
        other => panic!("unexpected: {:?}", other),
    }
    match data.load_or_default::<String>("n") {
        Err(CoreError::Deserialization { key, .. }) => assert_eq!(key, "n"),
        other => panic!("unexpected: {:?}", other),
    }
    match data.load_array::<String>("s") {
        Err(CoreError::Deserialization { key, .. }) => assert_eq!(key, "s"),
        other => panic!("unexpected: {:?}", other),
    }
    assert_eq!(data.load_or_default::<String>("s").unwrap(), "text");
    assert_eq!(data.load_or_default::<Value>("zzz").unwrap(), Value::Null);
}

#[test]
fn first_layer_wins_even_with_a_wrong_shape() {
    let data = load(&vec![text("1", "k: [1]"), text("2", "k: fine")]).unwrap();
    assert!(data.load::<String>("k").is_err());
    assert_eq!(
        data.load::<Value>("k").unwrap(),
        Some(Value::Sequence(vec![Value::Number(1.into())]))
    );
}

#[test]
fn lookups_are_repeatable() {
    let mut layer1 = Mapping::new();
    layer1.insert(key("foo"), key("foo value"));
    layer1.insert(key("seq"), Value::Sequence(vec![key("item1")]));
    let mut layer2 = Mapping::new();
    layer2.insert(key("seq"), Value::Sequence(vec![key("item2")]));
    let data = Data::new(vec![layer1, layer2]);
    let first = data.load::<String>("foo").unwrap();
    let second = data.load::<String>("foo").unwrap();
    assert_eq!(first, second);
    assert_eq!(first, Some("foo value".to_string()));
    let first = data.load_array::<String>("seq").unwrap();
    let second = data.load_array::<String>("seq").unwrap();
    assert_eq!(first, second);
    assert_eq!(first, vec!["item1".to_string(), "item2".to_string()]);
    assert_eq!(data.load::<String>("missing").unwrap(), None);
}

#[test]
fn run_lines_splits_stdout_at_line_feeds() {
    let command = Command::new("git");
    assert_eq!(command.program(), "git");
    let owned = Command::new(String::from("hg"));
    assert_eq!(owned.program(), "hg");
    let output = Output { success: true, stdout: b"one\ntwo\r\n\nthr\xc3\xa9e\n".to_vec() };
    assert_eq!(
        command.run_lines(&output).expect("valid output"),
        vec!["one", "two\r", "", "thr\u{e9}e", ""]
    );
    let output = Output { success: true, stdout: Vec::new() };
    assert_eq!(command.run_lines(&output).expect("empty output"), vec![""]);
}

#[test]
fn run_lines_fails_on_failure_and_on_bad_utf8() {
    let command = Command::new("git");
    let output = Output { success: false, stdout: b"ignored".to_vec() };
    assert!(matches!(
        command.run_lines(&output),
        Err(CoreError::CommandExecution { .. })
    ));
    let output = Output { success: true, stdout: vec![b'a', 0xff] };
    assert!(matches!(
        command.run_lines(&output),
        Err(CoreError::CommandExecution { .. })
    ));
}

#[test]
fn error_messages() {
    let e = CoreError::FileAccess { path: "p".to_string(), message: "m".to_string() };
    assert_eq!(e.message(), "failed to load: p: failed to open file: m");
    let e = CoreError::Parse { path: "p".to_string(), message: "m".to_string() };
    assert_eq!(e.message(), "failed to load: p: m");
    let e = CoreError::SpecDirective {
        fragment: "k".to_string(),
        problem: DirectiveProblem::MissingKey,
    };
    assert_eq!(e.message(), "missing key `k` in hierarchy");
    let e = CoreError::SpecDirective {
        fragment: "k:x".to_string(),
        problem: DirectiveProblem::UnknownKind,
    };
    assert_eq!(e.message(), "bad part in specification `k:x`: bad type");
    let e = CoreError::SpecDirective {
        fragment: "HOME".to_string(),
        problem: DirectiveProblem::MissingVariable,
    };
    assert_eq!(e.message(), "failed to load environment variable `HOME`");
    let e = CoreError::Deserialization { key: "k".to_string(), message: "m".to_string() };
    assert_eq!(e.message(), "bad value for key `k`: m");
    let e = CoreError::CommandExecution { message: "m".to_string() };
    assert_eq!(e.message(), "m");
}
