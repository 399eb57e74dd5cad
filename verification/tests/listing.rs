use zyma::error::FsError;
use zyma::vfs::{
    check_readable, read_text, sort_entries, FileItem, FileKind, FileStat, DEFAULT_MAX_READ_BYTES,
};

fn item(name: &str, is_dir: bool) -> FileItem {
    FileItem::new(name.to_string(), &format!("C:\\ws\\{}", name), is_dir)
}

#[test]
fn entries_carry_forward_slashes() {
    let e = item("a.txt", false);
    assert_eq!(e.name, "a.txt");
    assert_eq!(e.path, "C:/ws/a.txt");
    assert!(!e.is_dir);
}

#[test]
fn listing_puts_directories_first_then_names_without_case() {
    let sorted = sort_entries(vec![
        item("zeta.txt", false),
        item("Beta", true),
        item("alpha.txt", false),
        item("Gamma.txt", false),
        item("alpha", true),
        item("beta.txt", false),
    ]);
    let names: Vec<&str> = sorted.iter().map(|e| e.name.as_str()).collect();
    assert_eq!(names, vec!["alpha", "Beta", "alpha.txt", "beta.txt", "Gamma.txt", "zeta.txt"]);
    assert!(sorted[0].is_dir && sorted[1].is_dir && !sorted[2].is_dir);
    assert_eq!(sorted[1].path, "C:/ws/Beta");
}

#[test]
fn listing_keeps_equal_names_in_the_order_given() {
    let sorted = sort_entries(vec![item("A", false), item("a", false), item("B", true)]);
    let names: Vec<&str> = sorted.iter().map(|e| e.name.as_str()).collect();
    assert_eq!(names, vec!["B", "A", "a"]);
    assert!(sort_entries(Vec::new()).is_empty());
}

#[test]
fn stat_names_the_kind() {
    let s = FileStat::new(FileKind::Dir, 4096, Some(1700000000));
    assert_eq!(s.file_type, "dir");
    assert_eq!(s.size, 4096);
    assert_eq!(s.mtime, 1700000000);
    assert_eq!(FileStat::new(FileKind::File, 1, None).file_type, "file");
    assert_eq!(FileStat::new(FileKind::File, 1, None).mtime, 0);
    assert_eq!(FileStat::new(FileKind::Symlink, 0, None).file_type, "symlink");
    assert_eq!(FileStat::new(FileKind::Unknown, 0, None).file_type, "unknown");
}

#[test]
fn reading_refuses_large_and_binary_files() {
    assert!(check_readable(10, b"hello", DEFAULT_MAX_READ_BYTES).is_ok());
    assert!(check_readable(5242880, b"hello", DEFAULT_MAX_READ_BYTES).is_ok());
    assert!(matches!(
        check_readable(5242881, b"hello", DEFAULT_MAX_READ_BYTES),
        Err(FsError::TooLarge)
    ));
    assert!(matches!(check_readable(3, b"a\0b", DEFAULT_MAX_READ_BYTES), Err(FsError::BinaryFile)));
    assert!(matches!(check_readable(9, b"a\0b", 8), Err(FsError::TooLarge)));
}

#[test]
fn read_text_decodes_what_it_lets_through() {
    assert_eq!(read_text(&b"hello\n".to_vec(), 100).ok().unwrap(), "hello\n");
    assert_eq!(read_text(&Vec::new(), 100).ok().unwrap(), "");
    assert_eq!(read_text(&vec![b'a', 0xff, b'b'], 100).ok().unwrap(), "a\u{fffd}b");
    assert!(matches!(read_text(&b"hello".to_vec(), 4), Err(FsError::TooLarge)));
    assert!(matches!(read_text(&b"he\0lo".to_vec(), 100), Err(FsError::BinaryFile)));
    let mut late = vec![b'a'; 1500];
    late[1200] = 0;
    assert!(read_text(&late, 5000).is_ok());
}

#[test]
fn what_was_written_reads_back() {
    let written = "héllo wörld\n猫\n";
    assert_eq!(read_text(&written.as_bytes().to_vec(), DEFAULT_MAX_READ_BYTES).ok().unwrap(), written);
    assert_eq!(read_text(&"".as_bytes().to_vec(), DEFAULT_MAX_READ_BYTES).ok().unwrap(), "");
}
