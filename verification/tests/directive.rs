use quickcfg::directive::{find_directive, parse_spec, SCAN_LINES};
use quickcfg::error::{CoreError, DirectiveProblem};
use quickcfg::hierarchy::Data;
use quickcfg::table::Table;
use quickcfg::text::{
    chars_of, find_char, find_text, same_text, slice, split_at_each, stands_at, trimmed,
};
use serde_yaml::{Mapping, Value};

fn key(s: &str) -> Value {
    Value::String(s.to_string())
}

fn layers() -> Data {
    let mut layer1 = Mapping::new();
    let mut layer2 = Mapping::new();
    layer1.insert(key("a"), key("first a"));
    layer1.insert(key("b"), Value::Sequence(vec![key("b1")]));
    layer2.insert(key("a"), key("second a"));
    layer2.insert(key("b"), Value::Sequence(vec![key("b2"), Value::Bool(true)]));
    layer2.insert(key("n"), Value::Number(7.into()));
    Data::new(vec![layer1, layer2])
}

fn environment() -> Table<String> {
    let mut env = Table::new();
    env.insert("c".to_string(), "from env".to_string());
    env
}

fn parts(content: &str) -> Vec<(String, String, Option<String>)> {
    parse_spec(content)
        .into_iter()
        .map(|e| (e.part, e.key, e.kind))
        .collect()
}

fn entry(part: &str, key: &str, kind: Option<&str>) -> (String, String, Option<String>) {
    (part.to_string(), key.to_string(), kind.map(|k| k.to_string()))
}

#[test]
fn directive_line_resolves_each_kind() {
    let data = layers();
    let m = data
        .load_from_spec("quickcfg: a, b:array, c:env", &environment())
        .expect("all three resolve");
    assert_eq!(m.len(), 3);
    assert_eq!(m.get(&key("a")), Some(&key("first a")));
    assert_eq!(
        m.get(&key("b")),
        Some(&Value::Sequence(vec![key("b1"), key("b2"), Value::Bool(true)]))
    );
    assert_eq!(m.get(&key("c")), Some(&key("from env")));
}

#[test]
fn plain_entry_needs_the_key() {
    let data = layers();
    match data.load_from_spec("# quickcfg: missing", &environment()) {
        Err(CoreError::SpecDirective { fragment, problem }) => {
            assert_eq!(fragment, "missing");
            assert_eq!(problem, DirectiveProblem::MissingKey);
        }
        other => panic!("unexpected: {:?}", other),
    }
}

#[test]
fn env_entry_needs_the_variable() {
    let data = layers();
    match data.load_from_spec("quickcfg: a:env", &environment()) {
        Err(CoreError::SpecDirective { fragment, problem }) => {
            assert_eq!(fragment, "a");
            assert_eq!(problem, DirectiveProblem::MissingVariable);
        }
        other => panic!("unexpected: {:?}", other),
    }
}

#[test]
fn unknown_kind_is_refused() {
    let data = layers();
    match data.load_from_spec("quickcfg: a:list", &environment()) {
        Err(CoreError::SpecDirective { fragment, problem }) => {
            assert_eq!(fragment, "a:list");
            assert_eq!(problem, DirectiveProblem::UnknownKind);
        }
        other => panic!("unexpected: {:?}", other),
    }
    // only the first colon splits: the rest belongs to the kind
    match data.load_from_spec("quickcfg: b:array:x", &environment()) {
        Err(CoreError::SpecDirective { fragment, problem }) => {
            assert_eq!(fragment, "b:array:x");
            assert_eq!(problem, DirectiveProblem::UnknownKind);
        }
        other => panic!("unexpected: {:?}", other),
    }
}

#[test]
fn array_entry_of_a_scalar_is_a_shape_error() {
    let data = layers();
    match data.load_from_spec("quickcfg: a:array", &environment()) {
        Err(CoreError::Deserialization { key, .. }) => assert_eq!(key, "a"),
        other => panic!("unexpected: {:?}", other),
    }
}

#[test]
fn array_entry_of_an_absent_key_is_empty() {
    let data = layers();
    let m = data
        .load_from_spec("quickcfg: nowhere:array", &environment())
        .expect("absent is not an error for arrays");
    assert_eq!(m.get(&key("nowhere")), Some(&Value::Sequence(vec![])));
}

#[test]
fn first_error_in_order_is_reported() {
    let data = layers();
    match data.load_from_spec("quickcfg: a, x:bad, missing", &environment()) {
        Err(CoreError::SpecDirective { fragment, problem }) => {
            assert_eq!(fragment, "x:bad");
            assert_eq!(problem, DirectiveProblem::UnknownKind);
        }
        other => panic!("unexpected: {:?}", other),
    }
    match data.load_from_spec("quickcfg: missing, x:bad", &environment()) {
        Err(CoreError::SpecDirective { fragment, problem }) => {
            assert_eq!(fragment, "missing");
            assert_eq!(problem, DirectiveProblem::MissingKey);
        }
        other => panic!("unexpected: {:?}", other),
    }
}

#[test]
fn text_without_directive_gives_an_empty_mapping() {
    let data = layers();
    let m = data
        .load_from_spec("nothing here\nnor here", &environment())
        .expect("no directive, no work");
    assert!(m.is_empty());
    let m = data.load_from_spec("", &environment()).expect("empty text");
    assert!(m.is_empty());
}

#[test]
fn only_the_first_five_lines_are_scanned() {
    assert_eq!(SCAN_LINES, 5);
    assert_eq!(parts("1\n2\n3\n4\nquickcfg: a"), vec![entry("a", "a", None)]);
    assert_eq!(parts("1\n2\n3\n4\n5\nquickcfg: a"), vec![]);
}

#[test]
fn only_the_first_directive_line_is_used() {
    assert_eq!(
        parts("quickcfg: a\nquickcfg: b"),
        vec![entry("a", "a", None)]
    );
    assert_eq!(
        parts("x\n// quickcfg: b:array, a\nquickcfg: c"),
        vec![entry("b:array", "b", Some("array")), entry("a", "a", None)]
    );
}

#[test]
fn entries_are_trimmed_and_blank_ones_skipped() {
    assert_eq!(
        parts("# quickcfg:  a ,, b:env ,\t\r\nrest"),
        vec![entry("a", "a", None), entry("b:env", "b", Some("env"))]
    );
    assert_eq!(parts("quickcfg:"), vec![]);
    assert_eq!(parts("quickcfg:   "), vec![]);
    assert_eq!(parts("quickcfg: , ,"), vec![]);
}

#[test]
fn key_and_kind_are_not_trimmed_around_the_colon() {
    assert_eq!(
        parts("quickcfg: a : array"),
        vec![entry("a : array", "a ", Some(" array"))]
    );
    assert_eq!(parts("quickcfg: a:"), vec![entry("a:", "a", Some(""))]);
    assert_eq!(parts("quickcfg: :env"), vec![entry(":env", "", Some("env"))]);
}

#[test]
fn header_is_found_anywhere_in_the_line() {
    assert_eq!(
        parts("<!-- quickcfg: a --> quickcfg: b"),
        vec![entry("a --> quickcfg: b", "a --> quickcfg", Some(" b"))]
    );
    assert_eq!(parts("quickcfg a"), vec![]);
    assert_eq!(parts("quickcf: a\nxquickcfg:é"), vec![entry("é", "é", None)]);
}

#[test]
fn find_directive_takes_the_bound() {
    let text = chars_of("x\nquickcfg: a");
    assert_eq!(find_directive(&text, 1), None);
    assert_eq!(find_directive(&text, 2), Some(chars_of(" a")));
    assert_eq!(find_directive(&text, 0), None);
}

#[test]
fn later_entry_for_a_key_replaces_the_earlier() {
    let data = layers();
    let m = data
        .load_from_spec("quickcfg: c:env, c:array", &environment())
        .expect("both resolve");
    assert_eq!(m.len(), 1);
    assert_eq!(m.get(&key("c")), Some(&Value::Sequence(vec![])));
}

#[test]
fn text_helpers() {
    let text = chars_of("a,b,,c");
    assert_eq!(text, vec!['a', ',', 'b', ',', ',', 'c']);
    assert_eq!(find_char(&text, ','), 1);
    assert_eq!(find_char(&text, 'x'), 6);
    assert_eq!(slice(&text, 2, 4), vec!['b', ',']);
    assert_eq!(
        split_at_each(&text, ','),
        vec![vec!['a'], vec!['b'], vec![], vec!['c']]
    );
    assert_eq!(split_at_each(&vec![], ','), vec![Vec::<char>::new()]);
    assert_eq!(split_at_each(&chars_of("a,"), ','), vec![vec!['a'], vec![]]);
    assert_eq!(find_text(&chars_of("abcabc"), &chars_of("bc")), Some(1));
    assert_eq!(find_text(&chars_of("abcabc"), &chars_of("cb")), None);
    assert_eq!(find_text(&chars_of("ab"), &chars_of("abc")), None);
    assert_eq!(find_text(&chars_of("abc"), &chars_of("abc")), Some(0));
    assert_eq!(find_text(&chars_of("abc"), &chars_of("")), Some(0));
    assert_eq!(trimmed(&chars_of(" \t a b \u{a0}\n")), chars_of("a b"));
    assert_eq!(trimmed(&chars_of("   ")), chars_of(""));
    assert_eq!(trimmed(&chars_of("ab")), chars_of("ab"));
}

#[test]
fn same_text_compares_whole_strings() {
    assert!(same_text("array", "array"));
    assert!(!same_text("array", "arra"));
    assert!(!same_text("env", "Env"));
    assert!(same_text("", ""));
    assert!(stands_at(&chars_of("xquickcfg:"), &chars_of("quickcfg:"), 1));
    assert!(!stands_at(&chars_of("xquickcfg:"), &chars_of("quickcfg:"), 0));
}
