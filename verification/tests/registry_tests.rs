use uploadstore::json::{encode_registry, load_registry, parse_registry};
use uploadstore::record::{Registry, UploadRecord};

fn record(filename: &str, user: &str, timestamp: &str) -> UploadRecord {
    UploadRecord {
        filename: filename.to_string(),
        user: user.to_string(),
        timestamp: timestamp.to_string(),
    }
}

#[test]
fn empty_registry_writes_empty_array() {
    let reg = Registry::new();
    assert_eq!(encode_registry(&reg), "[]");
    let back = parse_registry("[]").expect("empty array should parse");
    assert_eq!(back.len(), 0);
}

#[test]
fn one_record_document_is_exact() {
    let mut reg = Registry::new();
    reg.append(UploadRecord::new(
        "a.txt".to_string(),
        "2024-01-01T00:00:00+00:00".to_string(),
    ));
    assert_eq!(
        encode_registry(&reg),
        "[{\"filename\":\"a.txt\",\"user\":\"anonymous\",\"timestamp\":\"2024-01-01T00:00:00+00:00\"}]"
    );
}

#[test]
fn registry_grows_by_one_and_reloads() {
    let mut reg = Registry::new();
    reg.append(record("one.bin", "anonymous", "2024-01-01T00:00:00+00:00"));
    let before = reg.len();

    reg.append(record("two.bin", "anonymous", "2024-01-02T00:00:00+00:00"));
    assert_eq!(reg.len(), before + 1);

    let doc = encode_registry(&reg);
    let back = parse_registry(&doc).expect("own document should parse");
    assert_eq!(back.len(), before + 1);
    let last = back.record_at(before);
    assert_eq!(last.filename, "two.bin");
    assert_eq!(last.user, "anonymous");
    assert_eq!(last.timestamp, "2024-01-02T00:00:00+00:00");
}

#[test]
fn restart_round_trip_preserves_fields() {
    let mut reg = Registry::new();
    reg.append(record("img_01.png", "anonymous", "2023-12-31T23:59:59+00:00"));
    reg.append(record("notes.txt", "anonymous", "2024-01-01T08:30:00+00:00"));

    let doc = encode_registry(&reg);
    let back = load_registry(&doc);
    assert_eq!(back.len(), 2);
    for i in 0..2 {
        assert_eq!(back.record_at(i).filename, reg.record_at(i).filename);
        assert_eq!(back.record_at(i).user, reg.record_at(i).user);
        assert_eq!(back.record_at(i).timestamp, reg.record_at(i).timestamp);
    }
}

#[test]
fn escaped_characters_survive_the_round_trip() {
    let mut reg = Registry::new();
    reg.append(record("plain.txt", "quote\" backslash\\ newline\n tab\t", "t\u{1}s"));
    let doc = encode_registry(&reg);
    let back = parse_registry(&doc).expect("own document should parse");
    assert_eq!(back.len(), 1);
    assert_eq!(back.record_at(0).user, "quote\" backslash\\ newline\n tab\t");
    assert_eq!(back.record_at(0).timestamp, "t\u{1}s");
}

#[test]
fn malformed_documents_load_as_empty() {
    assert_eq!(load_registry("").len(), 0);
    assert_eq!(load_registry("not json").len(), 0);
    assert_eq!(load_registry("[{\"filename\":").len(), 0);
    assert_eq!(load_registry("{}").len(), 0);
    // the parser is strict: only the compact form this crate writes is valid
    assert_eq!(load_registry("[ ]").len(), 0);
}

#[test]
fn trailing_garbage_is_malformed() {
    let mut reg = Registry::new();
    reg.append(record("a.txt", "anonymous", "now"));
    let mut doc = encode_registry(&reg);
    doc.push('x');
    assert!(parse_registry(&doc).is_none());
}

#[test]
fn document_is_valid_json_for_serde() {
    let mut reg = Registry::new();
    reg.append(record("a b.txt", "anonymous \"quoted\"", "2024-01-01T00:00:00+00:00"));
    reg.append(record("ctrl", "line\nbreak", "t\u{1f}s"));
    let doc = encode_registry(&reg);

    let value: serde_json::Value = serde_json::from_str(&doc).expect("serde should parse it");
    let arr = value.as_array().expect("document is an array");
    assert_eq!(arr.len(), 2);
    assert_eq!(arr[0]["filename"], "a b.txt");
    assert_eq!(arr[0]["user"], "anonymous \"quoted\"");
    assert_eq!(arr[1]["user"], "line\nbreak");
    assert_eq!(arr[1]["timestamp"], "t\u{1f}s");
}
