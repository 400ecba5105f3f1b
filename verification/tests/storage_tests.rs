use keystonelight::storage::log::MAX_LOG_SIZE;
use keystonelight::storage::Database;

#[test]
fn test_persistence() {
    let mut log: Vec<u8> = Vec::new();

    let mut db = Database::open(&log);
    log.extend(db.set("key1", b"value1").unwrap());
    log.extend(db.set("key2", b"value2").unwrap());
    drop(db);

    // Second instance: verify data
    let db = Database::open(&log);
    assert_eq!(db.get("key1"), Some(b"value1".to_vec()));
    assert_eq!(db.get("key2"), Some(b"value2".to_vec()));
}

#[test]
fn test_compaction() {
    let mut log: Vec<u8> = Vec::new();
    let mut db = Database::open(&log);

    // Write multiple versions of the same key
    for i in 0..100 {
        log.extend(
            db.set(&format!("key{}", i % 10), format!("value{}", i).as_bytes())
                .unwrap(),
        );
    }

    let initial_size = log.len();
    assert_eq!(db.size(), initial_size);

    // Trigger compaction
    log = db.compact();

    let compacted_size = log.len();
    assert_eq!(db.size(), compacted_size);

    // Verify compaction reduced file size
    assert!(
        compacted_size < initial_size,
        "Compaction did not reduce file size (initial: {}, compacted: {})",
        initial_size,
        compacted_size
    );

    // Verify data integrity after compaction
    for i in 0..10 {
        let key = format!("key{}", i);
        let expected_value = format!("value{}", 90 + i);
        assert_eq!(db.get(&key), Some(expected_value.as_bytes().to_vec()));
    }
}

#[test]
fn test_delete() {
    let mut log: Vec<u8> = Vec::new();
    let mut db = Database::open(&log);

    // Set and verify key
    log.extend(db.set("key1", b"value1").unwrap());
    assert_eq!(db.get("key1"), Some(b"value1".to_vec()));

    // Delete and verify deletion
    log.extend(db.delete("key1").unwrap());
    assert_eq!(db.get("key1"), None);

    // Verify deletion persists after reopening
    drop(db);

    let db = Database::open(&log);
    assert_eq!(db.get("key1"), None);
}

#[test]
fn test_concurrent_operations() {
    let mut log: Vec<u8> = Vec::new();
    let mut db = Database::open(&log);

    // Perform multiple operations in quick succession
    for i in 0..100 {
        log.extend(
            db.set(&format!("key{}", i), format!("value{}", i).as_bytes())
                .unwrap(),
        );
    }

    // Verify all operations were successful
    for i in 0..100 {
        assert_eq!(
            db.get(&format!("key{}", i)),
            Some(format!("value{}", i).as_bytes().to_vec())
        );
    }
}

#[test]
fn test_large_values() {
    let mut log: Vec<u8> = Vec::new();
    let mut db = Database::open(&log);

    // Create a large value
    let large_value = "x".repeat(1024 * 1024); // 1MB string

    // Store and retrieve large value
    log.extend(db.set("large_key", large_value.as_bytes()).unwrap());

    assert_eq!(db.get("large_key"), Some(large_value.as_bytes().to_vec()));
    assert!(log.len() > MAX_LOG_SIZE);
    assert!(db.needs_compaction());
    assert_eq!(
        Database::open(&log).get("large_key"),
        Some(large_value.as_bytes().to_vec())
    );
}

#[test]
fn test_log_compaction_comprehensive() {
    let mut log: Vec<u8> = Vec::new();
    let mut db = Database::open(&log);

    // Phase 1: Create initial data
    for i in 0..10 {
        log.extend(
            db.set(&format!("key{}", i), format!("value{}", i).as_bytes())
                .unwrap(),
        );
    }

    // Phase 2: Update some keys multiple times
    for i in 0..5 {
        for j in 0..3 {
            log.extend(
                db.set(
                    &format!("key{}", i),
                    format!("updated_value{}_{}", i, j).as_bytes(),
                )
                .unwrap(),
            );
        }
    }

    // Phase 3: Delete some keys
    for i in 5..8 {
        log.extend(db.delete(&format!("key{}", i)).unwrap());
    }

    let initial_size = log.len();

    // Phase 4: Trigger compaction
    log = db.compact();

    let compacted_size = log.len();

    // Verify compaction reduced file size
    assert!(
        compacted_size < initial_size,
        "Compaction did not reduce file size (initial: {}, compacted: {})",
        initial_size,
        compacted_size
    );

    // Phase 5: Verify data integrity after compaction
    // Check updated keys
    for i in 0..5 {
        let key = format!("key{}", i);
        let expected_value = format!("updated_value{}_{}", i, 2); // Last update
        assert_eq!(db.get(&key), Some(expected_value.as_bytes().to_vec()));
    }

    // Check unchanged keys
    for i in 8..10 {
        let key = format!("key{}", i);
        let expected_value = format!("value{}", i);
        assert_eq!(db.get(&key), Some(expected_value.as_bytes().to_vec()));
    }

    // Check deleted keys
    for i in 5..8 {
        let key = format!("key{}", i);
        assert_eq!(db.get(&key), None);
    }

    // Phase 6: Verify database can be reopened after compaction
    drop(db);

    let db = Database::open(&log);

    // Verify all data is still correct after reopening
    for i in 0..5 {
        let key = format!("key{}", i);
        let expected_value = format!("updated_value{}_{}", i, 2);
        assert_eq!(db.get(&key), Some(expected_value.as_bytes().to_vec()));
    }

    for i in 8..10 {
        let key = format!("key{}", i);
        let expected_value = format!("value{}", i);
        assert_eq!(db.get(&key), Some(expected_value.as_bytes().to_vec()));
    }

    for i in 5..8 {
        let key = format!("key{}", i);
        assert_eq!(db.get(&key), None);
    }
}
