use quickcfg::state::Hashed;
use quickcfg::table::Table;
use quickcfg::{DiskState, State};
use std::time::{Duration, SystemTime};

fn at(secs: u64) -> SystemTime {
    SystemTime::UNIX_EPOCH + Duration::from_secs(secs)
}

#[test]
fn default_state_is_clean_and_empty() {
    let state = State::default();
    assert!(!state.dirty);
    assert_eq!(state.last_update.len(), 0);
    assert_eq!(state.once.len(), 0);
    assert_eq!(state.hashes.len(), 0);
    assert!(state.serialize().is_none());
}

#[test]
fn touch_records_a_time_and_sets_dirty() {
    let before = SystemTime::now();
    let mut state = State::default();
    assert_eq!(state.last_update("git"), None);
    state.touch("git");
    assert!(state.dirty);
    let when = *state.last_update("git").expect("touched name");
    assert!(when >= before);
    assert!(when <= SystemTime::now());
    assert_eq!(state.last_update("other"), None);
}

#[test]
fn touch_at_replaces_the_earlier_time() {
    let mut state = State::default();
    state.touch_at("git", at(10));
    state.touch_at("git", at(20));
    assert_eq!(state.last_update("git"), Some(&at(20)));
    assert_eq!(state.last_update.len(), 1);
}

#[test]
fn touch_once_then_has_run_once() {
    let mut state = State::default();
    assert!(!state.has_run_once("x"));
    state.touch_once("x");
    assert!(state.has_run_once("x"));
    assert!(!state.has_run_once("y"));
    assert!(state.dirty);
    state.touch("x");
    state.touch_hash("x", "value").expect("hashing cannot fail");
    assert!(state.has_run_once("x"));
}

#[test]
fn touch_hash_then_is_hash_fresh() {
    let mut state = State::default();
    assert!(!state.is_hash_fresh("id", "v1").expect("unknown id"));
    state.touch_hash("id", "v1").expect("hashing cannot fail");
    assert!(state.dirty);
    assert!(state.is_hash_fresh("id", "v1").expect("same value"));
    assert!(!state.is_hash_fresh("id", "v2").expect("other value"));
    assert!(!state.is_hash_fresh("other", "v1").expect("other id"));
}

#[test]
fn digest_of_a_number_is_the_fx_hash_of_it() {
    let mut state = State::default();
    state.touch_hash("n", 1u64).expect("hashing cannot fail");
    let hashed = state.hashes.get("n").expect("recorded");
    assert_eq!(hashed.hash, 0x517cc1b727220a95);
    assert!(state.is_digest_fresh("n", 0x517cc1b727220a95));
    assert!(!state.is_digest_fresh("n", 1));
}

#[test]
fn touch_digest_at_records_digest_and_time() {
    let mut state = State::default();
    state.touch_digest_at("id", 42, at(7));
    assert!(state.dirty);
    let hashed = state.hashes.get("id").expect("recorded");
    assert_eq!(hashed.hash, 42);
    assert_eq!(hashed.updated, at(7));
    assert!(state.is_digest_fresh("id", 42));
    assert!(!state.is_digest_fresh("id", 43));
    assert!(!state.is_digest_fresh("nope", 42));
}

#[test]
fn serialize_returns_all_entries_once_dirty() {
    let mut state = State::default();
    state.touch_at("a", at(1));
    state.touch_once_at("b", at(2));
    state.touch_digest_at("c", 3, at(4));
    let disk = state.serialize().expect("dirty state");
    assert_eq!(disk.last_update.len(), 1);
    assert_eq!(disk.last_update.get("a"), Some(&at(1)));
    assert_eq!(disk.once.len(), 1);
    assert_eq!(disk.once.get("b"), Some(&at(2)));
    assert_eq!(disk.hashes.len(), 1);
    assert_eq!(disk.hashes.get("c").map(|h| (h.hash, h.updated)), Some((3, at(4))));
}

#[test]
fn loaded_state_is_clean() {
    let mut disk = DiskState::default();
    disk.last_update.insert("a".to_string(), at(1));
    let state = disk.to_state();
    assert!(!state.dirty);
    assert_eq!(state.last_update("a"), Some(&at(1)));
    assert!(state.serialize().is_none());
}

#[test]
fn extend_with_clean_state_changes_nothing() {
    let mut state = State::default();
    state.touch_at("a", at(1));
    let mut disk = DiskState::default();
    disk.last_update.insert("a".to_string(), at(9));
    disk.once.insert("b".to_string(), at(9));
    let other = disk.to_state();
    state.extend(other);
    assert_eq!(state.last_update("a"), Some(&at(1)));
    assert!(!state.has_run_once("b"));

    let mut clean = State::default();
    let mut disk = DiskState::default();
    disk.once.insert("b".to_string(), at(9));
    clean.extend(disk.to_state());
    assert!(!clean.dirty);
    assert!(!clean.has_run_once("b"));
}

#[test]
fn extend_with_dirty_state_merges_last_writer_wins() {
    let mut state = State::default();
    state.touch_at("a", at(1));
    state.touch_at("keep", at(2));
    state.touch_once_at("o1", at(3));
    state.touch_digest_at("h", 5, at(5));

    let mut other = State::default();
    other.touch_at("a", at(10));
    other.touch_at("new", at(11));
    other.touch_once_at("o2", at(12));
    other.touch_digest_at("h", 6, at(13));
    other.touch_digest_at("h2", 7, at(14));

    state.extend(other);
    assert!(state.dirty);
    assert_eq!(state.last_update("a"), Some(&at(10)));
    assert_eq!(state.last_update("keep"), Some(&at(2)));
    assert_eq!(state.last_update("new"), Some(&at(11)));
    assert_eq!(state.last_update.len(), 3);
    assert!(state.has_run_once("o1"));
    assert!(state.has_run_once("o2"));
    // fingerprint records are not merged
    assert!(state.is_digest_fresh("h", 5));
    assert!(!state.is_digest_fresh("h2", 7));
    assert_eq!(state.hashes.len(), 1);
}

#[test]
fn extend_makes_a_clean_state_dirty() {
    let mut state = State::default();
    let mut other = State::default();
    other.touch_once_at("x", at(1));
    state.extend(other);
    assert!(state.dirty);
    assert!(state.has_run_once("x"));
}

#[test]
fn round_trip_keeps_untouched_entries() {
    let mut disk = DiskState::default();
    disk.last_update.insert("old".to_string(), at(1));
    disk.last_update.insert("both".to_string(), at(2));
    disk.once.insert("done".to_string(), at(3));
    disk.hashes.insert("h".to_string(), Hashed { hash: 9, updated: at(4) });

    let mut state = disk.to_state();
    assert!(!state.dirty);
    state.touch_at("both", at(20));
    state.touch_at("fresh", at(21));

    let again = state.serialize().expect("dirty after touch");
    assert_eq!(again.last_update.len(), 3);
    assert_eq!(again.last_update.get("old"), Some(&at(1)));
    assert_eq!(again.last_update.get("both"), Some(&at(20)));
    assert_eq!(again.last_update.get("fresh"), Some(&at(21)));
    assert_eq!(again.once.len(), 1);
    assert_eq!(again.once.get("done"), Some(&at(3)));
    assert_eq!(again.hashes.len(), 1);
    assert_eq!(again.hashes.get("h"), Some(&Hashed { hash: 9, updated: at(4) }));
}

#[test]
fn table_files_each_key_once() {
    let mut table: Table<u32> = Table::new();
    assert_eq!(table.len(), 0);
    assert!(!table.contains_key("a"));
    table.insert("a".to_string(), 1);
    table.insert("b".to_string(), 2);
    table.insert("a".to_string(), 3);
    assert_eq!(table.len(), 2);
    assert_eq!(table.get("a"), Some(&3));
    assert_eq!(table.get("b"), Some(&2));
    assert_eq!(table.get("c"), None);
    let (key, value) = table.entry(0);
    assert_eq!((key.as_str(), *value), ("a", 3));
    let (key, value) = table.entry(1);
    assert_eq!((key.as_str(), *value), ("b", 2));
}

#[test]
fn table_absorb_prefers_the_other_table() {
    let mut left: Table<u32> = Table::new();
    left.insert("a".to_string(), 1);
    left.insert("b".to_string(), 2);
    let mut right: Table<u32> = Table::new();
    right.insert("b".to_string(), 20);
    right.insert("c".to_string(), 30);
    left.absorb(right);
    assert_eq!(left.len(), 3);
    assert_eq!(left.get("a"), Some(&1));
    assert_eq!(left.get("b"), Some(&20));
    assert_eq!(left.get("c"), Some(&30));
}
