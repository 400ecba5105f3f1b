use keystonelight::encoding::{
    decode_request_value, decode_value, encode_value, is_plain_value, or_literal, with_marker,
    without_marker,
};
use keystonelight::protocol::value_line;
use keystonelight::storage::log::{checked_put, delete_line, put_line, put_line_with};
use keystonelight::key::is_valid_key;
use keystonelight::storage::index::Index;
use keystonelight::storage::replay::{count_corrupt_lines, recover, replay, terminated_len};
use keystonelight::storage::{Database, LogEntry, LogFile};
use keystonelight::StoreError;

#[test]
fn plain_values_stand_as_they_are() {
    assert_eq!(encode_value(b"hello world"), b"hello world");
    assert_eq!(encode_value(b"tab\there\r"), b"tab\there\r");
    assert_eq!(encode_value(b""), b"");
    assert!(is_plain_value(b"~ !"));
    assert!(is_plain_value(b"\x0c"));
}

#[test]
fn other_values_stand_as_base64() {
    assert_eq!(encode_value(&[0, 1, 2, 3]), b"base64:AAECAw==");
    assert_eq!(encode_value(b"two\nlines"), b"base64:dHdvCmxpbmVz");
    assert_eq!(encode_value(&[0xff]), b"base64:/w==");
    assert_eq!(encode_value(&[0x7f]), b"base64:fw==");
    assert_eq!(encode_value(&[0x0b]), b"base64:Cw==");
    assert!(!is_plain_value(b"\n"));
    assert!(!is_plain_value(&[0x80]));
}

#[test]
fn fields_decode_to_their_values() {
    assert_eq!(decode_value(b"hello"), Some(b"hello".to_vec()));
    assert_eq!(decode_value(b"base64:AAECAw=="), Some(vec![0, 1, 2, 3]));
    assert_eq!(decode_value(b"base64:"), Some(Vec::new()));
    assert_eq!(decode_value(b"base64:???"), None);
    assert_eq!(decode_value(b"base64:AAECAw"), None);
    assert_eq!(decode_request_value(b"base64:???"), b"base64:???");
    assert_eq!(decode_request_value(b"base64:AAECAw=="), vec![0, 1, 2, 3]);
}

#[test]
fn every_byte_value_reads_back_from_its_field() {
    for b in 0..=255u8 {
        let value = vec![b'a', b, b'z'];
        assert_eq!(decode_value(&encode_value(&value)), Some(value));
    }
}

#[test]
fn keys_are_checked() {
    assert!(is_valid_key("key"));
    assert!(is_valid_key("user.name"));
    assert!(is_valid_key("schl\u{fc}ssel"));
    assert!(is_valid_key(&"k".repeat(1024)));
    assert!(!is_valid_key(""));
    assert!(!is_valid_key(&"k".repeat(1025)));
    assert!(!is_valid_key("two words"));
    assert!(!is_valid_key("line\nbreak"));
    assert!(!is_valid_key("base64:abc"));
    assert!(is_valid_key("base64"));
}

#[test]
fn records_have_one_line_each() {
    let put = LogEntry::Put("mykey".to_string(), b"hello world".to_vec());
    assert_eq!(put.to_string(), "SET mykey hello world");
    let binary = LogEntry::Put("bin".to_string(), vec![0, 159, 146, 150]);
    assert_eq!(binary.to_string(), "SET bin base64:AJ+Slg==");
    let delete = LogEntry::Delete("mykey".to_string());
    assert_eq!(delete.to_string(), "DELETE mykey");
    assert_eq!(delete.to_bytes(), b"DELETE mykey");
    let empty = LogEntry::Put("k".to_string(), Vec::new());
    assert_eq!(empty.to_string(), "SET k ");
}

#[test]
fn lines_read_back_as_their_records() {
    let entry = LogEntry::from_string("SET mykey hello world").unwrap();
    assert!(matches!(entry, LogEntry::Put(key, value) if key == "mykey" && value == b"hello world"));
    let entry = LogEntry::from_string("SET bin base64:AJ+Slg==").unwrap();
    assert!(matches!(entry, LogEntry::Put(key, value) if key == "bin" && value == [0, 159, 146, 150]));
    let entry = LogEntry::from_string("DELETE mykey").unwrap();
    assert!(matches!(entry, LogEntry::Delete(key) if key == "mykey"));
    let entry = LogEntry::from_string("SET k ").unwrap();
    assert!(matches!(entry, LogEntry::Put(key, value) if key == "k" && value.is_empty()));
    let entry = LogEntry::from_string("SET k  padded ").unwrap();
    assert!(matches!(entry, LogEntry::Put(key, value) if key == "k" && value == b" padded "));
}

#[test]
fn corrupt_lines_are_no_records() {
    assert!(LogEntry::from_string("").is_none());
    assert!(LogEntry::from_string("SET").is_none());
    assert!(LogEntry::from_string("SET key").is_none());
    assert!(LogEntry::from_string("SET  value").is_none());
    assert!(LogEntry::from_string("set key value").is_none());
    assert!(LogEntry::from_string("DELETE").is_none());
    assert!(LogEntry::from_string("DELETE ").is_none());
    assert!(LogEntry::from_string("DELETE key extra").is_none());
    assert!(LogEntry::from_string("COMPACT").is_none());
    assert!(LogEntry::from_string("SET key base64:!!!").is_none());
    assert!(LogEntry::from_string("SET base64:key value").is_none());
    assert!(LogEntry::from_bytes(b"SET \xff\xfe value").is_none());
    assert!(matches!(LogEntry::parse(b"garbage"), Err(StoreError::LogCorruption)));
    assert!(matches!(LogEntry::parse(b"DELETE k"), Ok(LogEntry::Delete(key)) if key == "k"));
}

#[test]
fn replay_passes_over_corrupt_and_truncated_lines() {
    let log = b"SET a 1\ngarbage\nSET b base64:AAECAw==\n\nDELETE a\nSET c trunc";
    let entries = replay(log);
    assert_eq!(entries.len(), 3);
    assert!(matches!(&entries[0], LogEntry::Put(key, value) if key == "a" && value == b"1"));
    assert!(matches!(&entries[1], LogEntry::Put(key, value) if key == "b" && value == &[0, 1, 2, 3]));
    assert!(matches!(&entries[2], LogEntry::Delete(key) if key == "a"));
    assert_eq!(LogFile::replay(log).len(), 3);
    assert_eq!(count_corrupt_lines(log), 2);
    assert_eq!(count_corrupt_lines(b"SET a 1\nDELETE a\ntail"), 0);
    assert!(replay(b"").is_empty());
    assert!(replay(b"SET a 1").is_empty());

    let index = recover(log);
    assert_eq!(index.len(), 1);
    assert_eq!(index.get("a"), None);
    assert_eq!(index.get("b"), Some(vec![0, 1, 2, 3]));
    assert_eq!(index.get("c"), None);
}

#[test]
fn the_index_keeps_the_order_of_first_insertion() {
    let mut index = Index::new();
    assert!(index.is_empty());
    index.insert("b", b"1").unwrap();
    index.insert("a", b"2").unwrap();
    index.insert("b", b"3").unwrap();
    assert_eq!(index.len(), 2);
    assert!(index.contains_key("a"));
    assert_eq!(index.image(), b"SET b 3\nSET a 2\n");
    assert!(index.remove("b"));
    assert!(!index.remove("b"));
    assert_eq!(index.image(), b"SET a 2\n");
    index.apply(&LogEntry::Put("c".to_string(), vec![0xff])).unwrap();
    index.apply(&LogEntry::Delete("a".to_string())).unwrap();
    index.apply(&LogEntry::Delete("missing".to_string())).unwrap();
    assert_eq!(index.image(), b"SET c base64:/w==\n");
}

#[test]
fn the_index_refuses_what_it_cannot_hold() {
    let mut index = Index::new();
    assert!(matches!(index.insert("", b"v"), Err(StoreError::InvalidKey)));
    assert!(matches!(index.insert("a b", b"v"), Err(StoreError::InvalidKey)));
    let big = vec![b'x'; 1024 * 1024 + 1];
    assert!(matches!(index.insert("k", &big), Err(StoreError::ValueTooLarge)));
    assert!(matches!(
        index.apply(&LogEntry::Put(String::new(), Vec::new())),
        Err(StoreError::InvalidKey)
    ));
    assert!(index.is_empty());
    let limit = vec![b'x'; 1024 * 1024];
    assert!(index.insert("k", &limit).is_ok());
}

#[test]
fn the_log_file_tracks_its_length() {
    let mut log = LogFile::with_size(10);
    assert_eq!(log.size(), 10);
    let line = log.append(&LogEntry::Put("k".to_string(), b"v".to_vec())).unwrap();
    assert_eq!(line, b"SET k v\n");
    assert_eq!(log.size(), 18);
    let line = log.append(&LogEntry::Delete("k".to_string())).unwrap();
    assert_eq!(line, b"DELETE k\n");
    assert_eq!(log.size(), 27);
    assert!(!log.needs_compaction());
    assert!(log.grow(1024 * 1024 - 27));
    assert!(!log.needs_compaction());
    assert!(log.grow(1));
    assert!(log.needs_compaction());
    log.reset(5);
    assert_eq!(log.size(), 5);
}

#[test]
fn the_log_file_refuses_invalid_records_and_overflow() {
    let mut log = LogFile::with_size(0);
    assert!(matches!(
        log.append(&LogEntry::Delete("a b".to_string())),
        Err(StoreError::InvalidKey)
    ));
    assert!(matches!(
        log.append(&LogEntry::Put("k".to_string(), vec![0u8; 1024 * 1024 + 1])),
        Err(StoreError::ValueTooLarge)
    ));
    assert_eq!(log.size(), 0);
    let mut full = LogFile::with_size(usize::MAX - 3);
    match full.append(&LogEntry::Delete("k".to_string())) {
        Err(StoreError::Io(text)) => assert_eq!(text, "log size overflow"),
        _ => panic!("the append should overflow"),
    }
    assert_eq!(full.size(), usize::MAX - 3);
    assert!(!full.grow(4));
    assert!(full.grow(3));
}

#[test]
fn compacting_a_log_keeps_the_last_value_of_each_key() {
    let data = b"SET a 1\nSET b 2\nSET a 3\nDELETE b\nSET c 4\nnoise\n";
    let mut log = LogFile::with_size(data.len());
    let image = log.compact(data);
    assert_eq!(image, b"SET a 3\nSET c 4\n");
    assert_eq!(log.size(), image.len());
    assert!(image.len() <= data.len());
    let before = Database::open(data);
    let after = Database::open(&image);
    for key in ["a", "b", "c", "noise"] {
        assert_eq!(before.get(key), after.get(key));
    }
}

#[test]
fn values_of_every_kind_come_back() {
    let mut db = Database::new();
    let values: Vec<Vec<u8>> = vec![
        Vec::new(),
        vec![0],
        vec![0, 0, 0],
        vec![0xff, 0xfe, 0x80],
        b"base64:AAAA".to_vec(),
        b"base64:".to_vec(),
        b"base64:not base64 at all".to_vec(),
        b" leading and trailing ".to_vec(),
        b"line\nbreak".to_vec(),
        (0..=255u8).collect(),
    ];
    for (i, value) in values.iter().enumerate() {
        let key = format!("k{}", i);
        db.set(&key, value).unwrap();
        assert_eq!(db.get(&key), Some(value.clone()));
    }
}

#[test]
fn values_that_do_not_pass_for_base64_survive_a_reopen() {
    let mut log = Vec::new();
    let mut db = Database::new();
    let values: Vec<Vec<u8>> = vec![
        Vec::new(),
        vec![0, 0, 0],
        vec![0xff, 0xfe, 0x80],
        b" leading and trailing ".to_vec(),
        b"line\nbreak".to_vec(),
        b"base64:\x00binary after the marker".to_vec(),
        (0..=255u8).collect(),
    ];
    for (i, value) in values.iter().enumerate() {
        log.extend(db.set(&format!("k{}", i), value).unwrap());
    }
    let reopened = Database::open(&log);
    for (i, value) in values.iter().enumerate() {
        assert_eq!(reopened.get(&format!("k{}", i)), Some(value.clone()));
    }
    let compacted = Database::open(&db.compact());
    for (i, value) in values.iter().enumerate() {
        assert_eq!(compacted.get(&format!("k{}", i)), Some(value.clone()));
    }
}

#[test]
fn delete_twice_succeeds_twice() {
    let mut db = Database::new();
    db.set("k", b"v").unwrap();
    assert_eq!(db.delete("k").unwrap(), b"DELETE k\n");
    assert_eq!(db.delete("k").unwrap(), b"");
    assert_eq!(db.get("k"), None);
}

#[test]
fn a_set_is_found_after_a_crash() {
    let mut log = b"SET old 1\n".to_vec();
    let mut db = Database::open(&log);
    log.extend(db.set("k", &[1, 2, 3]).unwrap());
    drop(db);
    let db = Database::open(&log);
    assert_eq!(db.get("k"), Some(vec![1, 2, 3]));
    assert_eq!(db.get("old"), Some(b"1".to_vec()));
    assert_eq!(db.size(), log.len());
}

#[test]
fn the_database_refuses_invalid_input() {
    let mut db = Database::new();
    assert!(matches!(db.set("", b"v"), Err(StoreError::InvalidKey)));
    assert!(matches!(db.set("a b", b"v"), Err(StoreError::InvalidKey)));
    assert!(matches!(db.delete("a\nb"), Err(StoreError::InvalidKey)));
    assert!(matches!(
        db.set("k", &vec![0u8; 1024 * 1024 + 1]),
        Err(StoreError::ValueTooLarge)
    ));
    assert_eq!(db.size(), 0);
    assert_eq!(db.get(""), None);
}

#[test]
fn the_marker_frames_base64_text() {
    assert_eq!(with_marker(b"AAECAw=="), b"base64:AAECAw==");
    assert_eq!(with_marker(b""), b"base64:");
    assert_eq!(without_marker(b"base64:AAECAw=="), Some(&b"AAECAw=="[..]));
    assert_eq!(without_marker(b"base64:"), Some(&b""[..]));
    assert_eq!(without_marker(b"base64"), None);
    assert_eq!(without_marker(b"Base64:AAAA"), None);
    assert_eq!(or_literal(b"base64:???", None), b"base64:???");
    assert_eq!(or_literal(b"base64:AA==", Some(vec![0])), vec![0]);
}

#[test]
fn lines_are_built_from_their_fields() {
    assert_eq!(put_line_with("k", b"field"), b"SET k field");
    assert_eq!(put_line_with("k", b""), b"SET k ");
    assert_eq!(put_line("k", &[0xff]), b"SET k base64:/w==");
    assert_eq!(delete_line("k"), b"DELETE k");
    assert_eq!(value_line(b"base64:/w=="), b"VALUE base64:/w==");
    assert!(checked_put("k".to_string(), None).is_none());
    assert!(checked_put("k".to_string(), Some(vec![0u8; 1024 * 1024 + 1])).is_none());
    assert!(matches!(
        checked_put("k".to_string(), Some(vec![1, 2])),
        Some(LogEntry::Put(key, value)) if key == "k" && value == [1, 2]
    ));
}

#[test]
fn an_unfinished_line_is_cut_before_the_next_append() {
    let mut log = b"SET a 1\nSET b tr".to_vec();
    assert_eq!(terminated_len(&log), 8);
    log.truncate(terminated_len(&log));
    let mut db = Database::open(&log);
    assert_eq!(db.get("b"), None);
    log.extend(db.set("c", b"3").unwrap());
    let db = Database::open(&log);
    assert_eq!(db.get("a"), Some(b"1".to_vec()));
    assert_eq!(db.get("b"), None);
    assert_eq!(db.get("c"), Some(b"3".to_vec()));
    assert_eq!(terminated_len(b""), 0);
    assert_eq!(terminated_len(b"no newline"), 0);
    assert_eq!(terminated_len(b"a\nb\n"), 4);
}
