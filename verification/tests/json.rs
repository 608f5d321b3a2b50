use std::collections::HashMap;

use difflog::file_change_log::{get_file_change_log, FileChangeLog};
use difflog::log::{CommitLog, Log};
use serde_json::Value;

fn lines(items: &[&str]) -> Vec<String> {
    items.iter().map(|s| s.to_string()).collect()
}

fn list_doc(items: &[String]) -> Value {
    Value::Array(items.iter().map(|s| Value::String(s.clone())).collect())
}

fn lines_doc(stored: &HashMap<i32, String>) -> Value {
    let mut doc = serde_json::Map::new();
    for (position, line) in stored {
        doc.insert(position.to_string(), Value::String(line.clone()));
    }
    Value::Object(doc)
}

fn change_doc(change: &FileChangeLog) -> Value {
    let mut doc = serde_json::Map::new();
    doc.insert("add".to_string(), lines_doc(&change.add));
    doc.insert("del".to_string(), lines_doc(&change.del));
    Value::Object(doc)
}

fn commit_doc(entry: &CommitLog) -> Value {
    let mut changes = serde_json::Map::new();
    for (path, change) in &entry.changes {
        changes.insert(path.clone(), change_doc(change));
    }
    let mut doc = serde_json::Map::new();
    doc.insert("message".to_string(), Value::String(entry.message.clone()));
    doc.insert("old_files".to_string(), list_doc(&entry.old_files));
    doc.insert("new_files".to_string(), list_doc(&entry.new_files));
    doc.insert("changes".to_string(), Value::Object(changes));
    Value::Object(doc)
}

fn log_doc(log: &Log) -> Value {
    let mut commits = serde_json::Map::new();
    for id in log.timeline() {
        commits.insert(id.clone(), commit_doc(log.commit(id).unwrap()));
    }
    let mut doc = serde_json::Map::new();
    doc.insert("head".to_string(), Value::String(log.head().to_string()));
    doc.insert("timeline".to_string(), list_doc(log.timeline()));
    doc.insert("commits".to_string(), Value::Object(commits));
    Value::Object(doc)
}

fn list_from(doc: &Value) -> Vec<String> {
    doc.as_array().unwrap().iter().map(|s| s.as_str().unwrap().to_string()).collect()
}

fn lines_from(doc: &Value) -> HashMap<i32, String> {
    doc.as_object()
        .unwrap()
        .iter()
        .map(|(position, line)| (position.parse().unwrap(), line.as_str().unwrap().to_string()))
        .collect()
}

fn commit_from(doc: &Value) -> CommitLog {
    let changes = doc["changes"]
        .as_object()
        .unwrap()
        .iter()
        .map(|(path, change)| {
            let change =
                FileChangeLog { add: lines_from(&change["add"]), del: lines_from(&change["del"]) };
            (path.clone(), change)
        })
        .collect();
    CommitLog::new(
        doc["message"].as_str().unwrap().to_string(),
        list_from(&doc["old_files"]),
        list_from(&doc["new_files"]),
        changes,
    )
}

fn log_from(doc: &Value) -> Log {
    let mut log = Log::new();
    for id in list_from(&doc["timeline"]) {
        assert!(log.commit(&id).is_none());
        let entry = commit_from(&doc["commits"][id.as_str()]);
        log.record(id, entry);
    }
    assert_eq!(log.head(), doc["head"].as_str().unwrap());
    log
}

fn sample_log() -> Log {
    let mut log = Log::new();
    let mut first = HashMap::new();
    first.insert("notes.txt".to_string(), get_file_change_log(lines(&[]), lines(&["a", "b"])));
    log.record(
        "7f3a".to_string(),
        CommitLog::new("add notes".to_string(), lines(&[]), lines(&["notes.txt"]), first),
    );
    let mut second = HashMap::new();
    second.insert(
        "notes.txt".to_string(),
        get_file_change_log(lines(&["a", "b"]), lines(&["b", "c", "d"])),
    );
    second.insert("todo.txt".to_string(), get_file_change_log(lines(&[]), lines(&["one"])));
    log.record(
        "02bc".to_string(),
        CommitLog::new(
            "rework notes, add todo".to_string(),
            lines(&["notes.txt"]),
            lines(&["notes.txt", "todo.txt"]),
            second,
        ),
    );
    log
}

#[test]
fn an_empty_history_is_written_with_three_empty_fields() {
    let doc = log_doc(&Log::new());
    let fields = doc.as_object().unwrap();
    assert_eq!(fields.len(), 3);
    assert_eq!(fields["head"], Value::String(String::new()));
    assert_eq!(fields["timeline"], Value::Array(vec![]));
    assert_eq!(fields["commits"], Value::Object(serde_json::Map::new()));
}

#[test]
fn a_change_record_is_written_without_the_common_lines() {
    let change = get_file_change_log(lines(&["x", "a", "b", "c"]), lines(&["a", "b", "y", "c"]));
    let text = serde_json::to_string(&change_doc(&change)).unwrap();
    assert_eq!(text, "{\"add\":{\"2\":\"y\"},\"del\":{\"0\":\"x\"}}");
}

#[test]
fn a_history_survives_being_written_and_read_back() {
    let log = sample_log();
    let text = serde_json::to_string(&log_doc(&log)).unwrap();
    let read: Value = serde_json::from_str(&text).unwrap();
    let back = log_from(&read);

    assert_eq!(back.head(), log.head());
    assert_eq!(back.timeline(), log.timeline());
    for id in log.timeline() {
        let was = log.commit(id).unwrap();
        let is = back.commit(id).unwrap();
        assert_eq!(is.message, was.message);
        assert_eq!(is.old_files, was.old_files);
        assert_eq!(is.new_files, was.new_files);
        assert_eq!(is.changes.len(), was.changes.len());
        for (path, change) in &was.changes {
            assert_eq!(is.changes[path].add, change.add);
            assert_eq!(is.changes[path].del, change.del);
        }
    }
}

#[test]
fn line_positions_are_read_back_unchanged() {
    let change = get_file_change_log(
        lines(&["keep", "old 1", "keep too", "old 3"]),
        lines(&["new 0", "keep", "keep too", "new 3", "new 4"]),
    );
    let text = serde_json::to_string(&change_doc(&change)).unwrap();
    let read: Value = serde_json::from_str(&text).unwrap();
    let expected_add: HashMap<i32, String> =
        [(0, "new 0"), (3, "new 3"), (4, "new 4")].iter().map(|(k, s)| (*k, s.to_string())).collect();
    let expected_del: HashMap<i32, String> =
        [(1, "old 1"), (3, "old 3")].iter().map(|(k, s)| (*k, s.to_string())).collect();
    assert_eq!(lines_from(&read["add"]), expected_add);
    assert_eq!(lines_from(&read["del"]), expected_del);
}
