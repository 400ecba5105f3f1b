use base64::engine::general_purpose::STANDARD as BASE64;
use base64::Engine;
use keystonelight::server::{handle_line, Effect};
use keystonelight::storage::Database;

/// A server in memory: the database and the log it would keep on disk.
struct Session {
    db: Database,
    log: Vec<u8>,
}

impl Session {
    fn start() -> Session {
        Session { db: Database::new(), log: Vec::new() }
    }

    fn restart(self) -> Session {
        Session { db: Database::open(&self.log), log: self.log }
    }

    fn send_command(&mut self, line: &str) -> String {
        let outcome = handle_line(&mut self.db, line);
        match outcome.effect {
            Effect::Nothing => {}
            Effect::Append(bytes) => self.log.extend(bytes),
            Effect::AppendThenRewrite(bytes, image) => {
                self.log.extend(bytes);
                self.log = image;
            }
            Effect::Rewrite(image) => self.log = image,
        }
        outcome.response.to_string()
    }
}

fn decode_response(response: &str) -> Option<Vec<u8>> {
    let value = response.strip_prefix("VALUE ")?;
    match value.strip_prefix("base64:") {
        Some(text) => BASE64.decode(text).ok(),
        None => Some(value.as_bytes().to_vec()),
    }
}

#[test]
fn test_server_basic_operations() {
    let mut server = Session::start();

    // Test SET operation
    let response = server.send_command("set test_key test_value");
    assert_eq!(response, "OK");

    // Test GET operation
    let response = server.send_command("get test_key");
    assert!(response.starts_with("VALUE "));
    let value = decode_response(&response).unwrap();
    assert_eq!(value, b"test_value");

    // Test DELETE operation
    let response = server.send_command("delete test_key");
    assert_eq!(response, "OK");

    // Verify deletion
    let response = server.send_command("get test_key");
    assert_eq!(response, "NOT_FOUND");
}

#[test]
fn test_server_concurrent_clients() {
    let mut server = Session::start();

    for i in 0..5 {
        let key = format!("key{}", i);
        let value = format!("value{}", i);

        // Set value
        let response = server.send_command(&format!("set {} {}", key, value));
        assert_eq!(response, "OK");

        // Get value back
        let response = server.send_command(&format!("get {}", key));
        assert!(response.starts_with("VALUE "));
        let value_back = decode_response(&response).unwrap();
        assert_eq!(value_back, value.as_bytes());
    }
}

#[test]
fn test_server_error_handling() {
    let mut server = Session::start();

    // Test invalid command
    let response = server.send_command("invalid command");
    assert_eq!(response, "ERROR Invalid command");

    // Test missing arguments
    let response = server.send_command("get");
    assert_eq!(response, "ERROR Invalid command");
}

#[test]
fn test_server_binary_data() {
    let mut server = Session::start();

    // Test binary data
    let binary_data = vec![0, 1, 2, 3];
    let response = server.send_command(&format!(
        "set binary_key base64:{}",
        BASE64.encode(&binary_data)
    ));
    assert_eq!(response, "OK");

    // Get binary data back
    let response = server.send_command("get binary_key");
    assert!(response.starts_with("VALUE base64:"));
    let value = decode_response(&response).unwrap();
    assert_eq!(value, binary_data);
}

#[test]
fn greeting_is_set_read_and_deleted() {
    let mut server = Session::start();
    assert_eq!(server.send_command("SET greeting hello"), "OK");
    assert_eq!(server.send_command("GET greeting"), "VALUE hello");
    assert_eq!(server.send_command("DELETE greeting"), "OK");
    assert_eq!(server.send_command("GET greeting"), "NOT_FOUND");
    assert_eq!(server.log, b"SET greeting hello\nDELETE greeting\n");
}

#[test]
fn binary_value_travels_as_base64() {
    let mut server = Session::start();
    assert_eq!(server.send_command("SET bin base64:AAECAw=="), "OK");
    assert_eq!(server.send_command("GET bin"), "VALUE base64:AAECAw==");
    assert_eq!(server.db.get("bin"), Some(vec![0x00, 0x01, 0x02, 0x03]));
    assert_eq!(server.log, b"SET bin base64:AAECAw==\n");
}

#[test]
fn large_random_value_survives_a_restart() {
    let mut state: u32 = 0x2545_f491;
    let mut value: Vec<u8> = Vec::with_capacity(800 * 1024);
    for _ in 0..800 * 1024 {
        state = state.wrapping_mul(1_664_525).wrapping_add(1_013_904_223);
        value.push((state >> 24) as u8);
    }
    let mut server = Session::start();
    let line = format!("SET big base64:{}", BASE64.encode(&value));
    assert_eq!(server.send_command(&line), "OK");
    let mut server = server.restart();
    let response = server.send_command("GET big");
    assert_eq!(decode_response(&response), Some(value));
}

#[test]
fn hundred_sets_then_compact() {
    let mut server = Session::start();
    for i in 0..100 {
        assert_eq!(server.send_command(&format!("SET k v{}", i)), "OK");
    }
    assert_eq!(server.send_command("GET k"), "VALUE v99");
    let before = server.log.len();
    assert_eq!(server.send_command("COMPACT"), "OK");
    assert!(server.log.len() < before);
    assert_eq!(server.log, b"SET k v99\n");
    assert_eq!(server.send_command("GET k"), "VALUE v99");
    let mut server = server.restart();
    assert_eq!(server.send_command("GET k"), "VALUE v99");
}

#[test]
fn the_later_of_two_writers_wins() {
    let mut server = Session::start();
    assert_eq!(server.send_command("SET k A"), "OK");
    assert_eq!(server.send_command("SET k B"), "OK");
    assert_eq!(server.send_command("GET k"), "VALUE B");
    assert!(server.log.ends_with(b"SET k B\n"));

    let mut server = Session::start();
    assert_eq!(server.send_command("SET k B"), "OK");
    assert_eq!(server.send_command("SET k A"), "OK");
    assert_eq!(server.send_command("GET k"), "VALUE A");
    assert!(server.log.ends_with(b"SET k A\n"));
}

#[test]
fn delete_of_a_missing_key_is_ok_and_writes_nothing() {
    let mut server = Session::start();
    assert_eq!(server.send_command("DELETE nothing"), "OK");
    assert_eq!(server.send_command("DELETE nothing"), "OK");
    assert_eq!(server.send_command("GET nothing"), "NOT_FOUND");
    assert!(server.log.is_empty());
}

#[test]
fn invalid_keys_and_large_values_are_refused() {
    let mut server = Session::start();
    assert_eq!(server.send_command("SET base64:abc v"), "ERROR Invalid key");
    let long_key = "k".repeat(1025);
    assert_eq!(
        server.send_command(&format!("SET {} v", long_key)),
        "ERROR Invalid key"
    );
    assert_eq!(server.send_command(&format!("DELETE {}", long_key)), "ERROR Invalid key");
    let big = "x".repeat(1024 * 1024 + 1);
    assert_eq!(
        server.send_command(&format!("SET k {}", big)),
        "ERROR Value too large"
    );
    assert!(server.log.is_empty());
    let line = "x".repeat(4 * 1024 * 1024 + 1);
    assert_eq!(server.send_command(&line), "ERROR Invalid command");
}

#[test]
fn a_log_beyond_the_threshold_is_compacted_on_append() {
    let mut db = Database::new();
    let value = "x".repeat(600 * 1024);
    let first = handle_line(&mut db, &format!("SET a {}", value));
    assert!(matches!(first.effect, Effect::Append(_)));
    let second = handle_line(&mut db, &format!("SET a {}", value));
    match second.effect {
        Effect::AppendThenRewrite(line, image) => {
            assert_eq!(line, format!("SET a {}\n", value).into_bytes());
            assert_eq!(image, format!("SET a {}\n", value).into_bytes());
            assert_eq!(db.size(), image.len());
        }
        _ => panic!("the second append should compact the log"),
    }
}
