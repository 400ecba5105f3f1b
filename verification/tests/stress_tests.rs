use keystonelight::server::{handle_line, Effect};
use keystonelight::storage::Database;
use keystonelight::thread_pool::{JobQueue, Next};

/// A small deterministic generator, so that every run takes the same path.
struct Lcg(u64);

impl Lcg {
    fn next(&mut self) -> u32 {
        self.0 = self
            .0
            .wrapping_mul(6364136223846793005)
            .wrapping_add(1442695040888963407);
        (self.0 >> 33) as u32
    }

    fn below(&mut self, bound: u32) -> u32 {
        self.next() % bound
    }

    fn one_in_ten(&mut self) -> bool {
        self.below(10) == 0
    }
}

/// A database together with the log that it would keep on disk.
struct Store {
    db: Database,
    log: Vec<u8>,
}

impl Store {
    fn new() -> Store {
        Store { db: Database::new(), log: Vec::new() }
    }

    fn reopen(&self) -> Store {
        Store { db: Database::open(&self.log), log: self.log.clone() }
    }

    fn set(&mut self, key: &str, value: &[u8]) -> bool {
        match self.db.set(key, value) {
            Ok(line) => {
                self.log.extend(line);
                true
            }
            Err(_) => false,
        }
    }

    fn delete(&mut self, key: &str) -> bool {
        match self.db.delete(key) {
            Ok(line) => {
                self.log.extend(line);
                true
            }
            Err(_) => false,
        }
    }

    fn send_command(&mut self, line: &str) -> String {
        let outcome = handle_line(&mut self.db, line);
        match outcome.effect {
            Effect::Nothing => {}
            Effect::Append(bytes) => self.log.extend(bytes),
            Effect::AppendThenRewrite(bytes, image) => {
                self.log.extend(bytes);
                self.log = image;
            }
            Effect::Rewrite(image) => self.log = image,
        }
        outcome.response.to_string()
    }
}

#[test]
fn stress_test_error_injection() {
    let mut store = Store::new();
    let mut rng = Lcg(1);

    let num_clients = 2;
    let ops_per_client = 25;
    let mut total_errors = 0;

    for i in 0..ops_per_client {
        for client_id in 0..num_clients {
            let key = format!("key_{}_{}", client_id, i);
            let value = format!("value_{}_{}", client_id, i).into_bytes();

            if rng.one_in_ten() {
                // an invalid key (empty key)
                if !store.set("", &value) {
                    total_errors += 1;
                }
            } else if rng.one_in_ten() {
                // a large value (256KB)
                let large_value = vec![0u8; 256 * 1024];
                if !store.set(&key, &large_value) {
                    total_errors += 1;
                }
            } else {
                // Normal operation
                if !store.set(&key, &value) {
                    total_errors += 1;
                }
                let _ = store.db.get(&key);
                if !store.delete(&key) {
                    total_errors += 1;
                }
            }
        }
    }

    // Allow some errors since we're testing error conditions
    assert!(
        total_errors <= num_clients * ops_per_client / 2,
        "Too many errors occurred: {}",
        total_errors
    );
    assert_eq!(store.db.get(""), None);
}

#[test]
fn stress_test_large_data() {
    let mut store = Store::new();
    let mut rng = Lcg(2);
    let num_clients = 2;
    let ops_per_client = 20;

    let mut all_successful_sets = vec![];
    for i in 0..ops_per_client {
        for client_id in 0..num_clients {
            let key = format!("key_{}_{}", client_id, i);
            // data size 10KB - 100KB
            let data_size = 10_000 + rng.below(90_000) as usize;
            let value: Vec<u8> = (0..data_size).map(|_| rng.next() as u8).collect();

            if store.set(&key, &value) {
                all_successful_sets.push((key, value));
            }
        }
    }

    assert_eq!(all_successful_sets.len(), num_clients * ops_per_client);
    let reopened = store.reopen();
    for (key, expected_value) in all_successful_sets {
        assert_eq!(store.db.get(&key), Some(expected_value.clone()));
        assert_eq!(reopened.db.get(&key), Some(expected_value));
    }
}

#[test]
fn stress_test_many_clients() {
    let mut store = Store::new();
    let mut rng = Lcg(3);
    let num_clients = 20;
    let ops_per_client = 50;

    let mut all_successful_sets = vec![];
    for i in 0..ops_per_client {
        for client_id in 0..num_clients {
            let key = format!("key_{}_{}", client_id, i);
            let value = format!("value_{}_{}", client_id, i).into_bytes();

            match rng.below(3) {
                0 => {
                    if store.set(&key, &value) {
                        all_successful_sets.push((key, value));
                    }
                }
                1 => {
                    let _ = store.db.get(&key);
                }
                2 => {
                    let _ = store.delete(&key);
                }
                _ => unreachable!(),
            }
        }
    }

    for (key, expected_value) in all_successful_sets {
        if let Some(value) = store.db.get(&key) {
            assert_eq!(value, expected_value);
        }
    }
}

#[test]
fn stress_test_persistence() {
    let mut store = Store::new();

    let num_clients = 3;
    let ops_per_client = 100;

    // First phase: Write data
    let mut all_written_data = vec![];
    for i in 0..ops_per_client {
        for client_id in 0..num_clients {
            let key = format!("key_{}_{}", client_id, i);
            let value = format!("value_{}_{}", client_id, i).into_bytes();

            if store.set(&key, &value) {
                all_written_data.push((key, value));
            }
        }
    }
    assert_eq!(all_written_data.len(), num_clients * ops_per_client);

    // Second phase: Verify data after restart
    let store = store.reopen();
    for (key, expected_value) in all_written_data {
        assert_eq!(store.db.get(&key), Some(expected_value));
    }
}

#[test]
fn test_server_thread_pool_configurations() {
    // Test with different thread pool sizes
    for num_threads in [1usize, 2, 4, 8] {
        let mut server = Store::new();
        let mut queue: JobQueue<usize> = JobQueue::new(num_threads);
        assert_eq!(queue.workers(), num_threads);

        // Test basic operations with each thread pool size
        let response = server.send_command("set test_key test_value");
        assert_eq!(response, "OK");

        let response = server.send_command("get test_key");
        assert_eq!(response, "VALUE test_value");

        // Test with more clients than threads
        for i in 0..num_threads * 2 {
            queue.execute(i).unwrap();
        }
        queue.close();
        let mut served = 0;
        loop {
            match queue.next() {
                Next::Job(i) => {
                    assert_eq!(i, served);
                    let key = format!("key{}", i);
                    let value = format!("value{}", i);

                    let response = server.send_command(&format!("set {} {}", key, value));
                    assert_eq!(response, "OK");

                    let response = server.send_command(&format!("get {}", key));
                    assert_eq!(response, format!("VALUE {}", value));
                    served += 1;
                }
                Next::Wait => panic!("a closed queue does not make a worker wait"),
                Next::Exit => break,
            }
        }
        assert_eq!(served, num_threads * 2);
    }
}

#[test]
fn test_server_thread_pool_stress() {
    let mut server = Store::new();
    let mut queue: JobQueue<usize> = JobQueue::new(4);

    // Many clients, several operations each
    for round in 0..5 {
        for i in 0..20 {
            queue.execute(round * 20 + i).unwrap();
        }
    }
    assert_eq!(queue.len(), 100);
    queue.close();

    let mut served = 0;
    while let Next::Job(job) = queue.next() {
        let i = job % 20;
        let key = format!("stress_key{}", i);
        let value = format!("stress_value{}", i);

        let response = server.send_command(&format!("set {} {}", key, value));
        assert_eq!(response, "OK");

        let response = server.send_command(&format!("get {}", key));
        assert_eq!(response, format!("VALUE {}", value));
        served += 1;
    }
    assert_eq!(served, 100);
    assert_eq!(server.reopen().db.get("stress_key19"), Some(b"stress_value19".to_vec()));
}
