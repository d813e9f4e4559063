use file_explorer::entry::{create_file_entry, is_executable, is_executable_extension};

#[test]
fn entry_fields_are_formatted() {
    let e = create_file_entry("notes.txt".to_string(), false, false, "/home/notes.txt".to_string(), 2048, Some(0));
    assert_eq!(e.name, "notes.txt");
    assert!(!e.is_directory);
    assert!(!e.is_executable);
    assert_eq!(e.path, "/home/notes.txt");
    assert_eq!(e.size, "2.0KB");
    assert_eq!(e.modified, "1970-01-01 00:00");
}

#[test]
fn entry_of_directory_before_epoch() {
    let e = create_file_entry("bin".to_string(), true, true, "/bin".to_string(), 4096, None);
    assert!(e.is_directory);
    assert!(e.is_executable);
    assert_eq!(e.size, "4.0KB");
    assert_eq!(e.modified, "Unknown");
}

#[test]
fn execute_bits() {
    assert!(is_executable(Some(0o755)));
    assert!(is_executable(Some(0o100)));
    assert!(is_executable(Some(0o010)));
    assert!(is_executable(Some(0o001)));
    assert!(is_executable(Some(0o100644 | 0o001)));
    assert!(!is_executable(Some(0o644)));
    assert!(!is_executable(Some(0o100644)));
    assert!(!is_executable(Some(0)));
    assert!(!is_executable(None));
}

#[test]
fn windows_extensions() {
    for ext in ["exe", "EXE", "Exe", "bat", "BaT", "cmd", "CMD", "com", "cOm"] {
        assert!(is_executable_extension(ext), "{}", ext);
    }
    for ext in ["", "ex", "exes", "txt", "sh", "coM1", "ÉXE", "e\u{301}xe"] {
        assert!(!is_executable_extension(ext), "{}", ext);
    }
    for ext in ["exe", "EXE", "bat", "txt", "Com", "ÉXE"] {
        let expected = ext.eq_ignore_ascii_case("exe")
            || ext.eq_ignore_ascii_case("bat")
            || ext.eq_ignore_ascii_case("cmd")
            || ext.eq_ignore_ascii_case("com");
        assert_eq!(is_executable_extension(ext), expected);
    }
}
