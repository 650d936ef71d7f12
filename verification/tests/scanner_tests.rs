use rudd::file_map::FileMap;
use rudd::scanner::{check_scan_root, md5_hex, FileEntry};
use rudd::text::{bytes_to_lower_hex, decimal_string};
use rudd::RuddError;

fn entry(rel: &str, abs: &str) -> FileEntry {
    FileEntry { relative_path: rel.to_string(), absolute_path: abs.to_string(), md5: None }
}

#[test]
fn test_scan_directory_not_found() {
    let result = check_scan_root("/nonexistent/directory", false, false);
    assert!(matches!(result, Err(RuddError::DirectoryNotFound(_))));
}

#[test]
fn scan_root_that_is_a_file_is_refused() {
    match check_scan_root("/etc/hostname", true, false) {
        Err(RuddError::NotADirectory(p)) => assert_eq!(p, "/etc/hostname"),
        _ => panic!("expected NotADirectory"),
    }
    assert!(check_scan_root("/tmp", true, true).is_ok());
}

#[test]
fn md5_of_hello_world() {
    assert_eq!(md5_hex(b"hello world"), "5eb63bbbe01eeed093cb22bb8f5acdc3");
    assert_eq!(md5_hex(b""), "d41d8cd98f00b204e9800998ecf8427e");
}

#[test]
fn lower_hex_writes_two_digits_per_byte() {
    assert_eq!(bytes_to_lower_hex(&[0x00, 0x0f, 0xa0, 0xff]), "000fa0ff");
    assert_eq!(bytes_to_lower_hex(&[]), "");
}

#[test]
fn decimal_renders_numbers() {
    assert_eq!(decimal_string(0), "0");
    assert_eq!(decimal_string(7), "7");
    assert_eq!(decimal_string(10), "10");
    assert_eq!(decimal_string(1234567890), "1234567890");
}

#[test]
fn error_messages() {
    assert_eq!(
        RuddError::DirectoryNotFound("/x".to_string()).message(),
        "Directory not found: /x"
    );
    assert_eq!(
        RuddError::NotADirectory("/y".to_string()).message(),
        "Path is not a directory: /y"
    );
    assert_eq!(RuddError::IoError("boom".to_string()).message(), "IO error: boom");
    assert_eq!(
        RuddError::AccessDenied { path: "/z".to_string() }.message(),
        "Failed to access path: /z"
    );
}

#[test]
fn file_map_reads_back_what_was_written() {
    let mut m = FileMap::new();
    assert!(m.is_empty());
    assert_eq!(m.insert("a/b".to_string(), entry("a/b", "/r/a/b")), None);
    assert_eq!(m.insert("c".to_string(), entry("c", "/r/c")), None);
    assert_eq!(m.len(), 2);
    assert_eq!(m.get("a/b").map(|e| e.absolute_path.clone()), Some("/r/a/b".to_string()));
    assert!(m.contains_key("a//b/"));
    assert!(!m.contains_key("a"));
    assert_eq!(m.get("d"), None);
}

#[test]
fn file_map_insert_replaces_entry_and_keeps_key() {
    let mut m = FileMap::new();
    m.insert("a/b".to_string(), entry("a/b", "/old"));
    let previous = m.insert("a//b".to_string(), entry("a/b", "/new"));
    assert_eq!(previous.map(|e| e.absolute_path), Some("/old".to_string()));
    assert_eq!(m.len(), 1);
    assert_eq!(m.key_at(0), "a/b");
    assert_eq!(m.entry_at(0).absolute_path, "/new");
}

#[test]
fn file_map_keeps_keys_in_path_order() {
    let mut m = FileMap::new();
    for name in ["z", "a.txt", "a/b", "m/n", "b"] {
        m.insert(name.to_string(), entry(name, name));
    }
    let keys: Vec<String> = (0..m.len()).map(|i| m.key_at(i).clone()).collect();
    assert_eq!(keys, vec!["a/b", "a.txt", "b", "m/n", "z"]);
}

#[test]
fn md5_checksums_are_thirty_two_lower_hex_digits() {
    for data in [&b""[..], &b"a"[..], &[0u8, 255, 16, 1][..], &[7u8; 300][..]] {
        let hex = md5_hex(data);
        assert_eq!(hex.len(), 32);
        assert!(hex.chars().all(|c| c.is_ascii_digit() || ('a'..='f').contains(&c)));
    }
}
