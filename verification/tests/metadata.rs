use account_vault::errors::Error;
use account_vault::metadata::{truncate_number, truncate_to_max_length, FileMetadata};

#[test]
fn meta_full_path() {
    let meta = FileMetadata {
        folder_path: Some("/test/folder".into()),
        file_name: Some("file".into()),
        extension: Some("mp3".into()),
        ..Default::default()
    };
    assert_eq!(String::from("/test/folder/file.mp3"), meta.full_path().unwrap());
}

#[test]
fn full_path_missing_field() {
    let meta = FileMetadata {
        folder_path: Some("/test/folder".into()),
        file_name: None,
        extension: Some("mp3".into()),
        ..Default::default()
    };
    assert!(matches!(meta.full_path(), Err(Error::MissingField)));

    let empty = FileMetadata::default();
    assert!(matches!(empty.full_path(), Err(Error::MissingField)));
}

#[test]
fn truncate_string_by_byte_length() {
    let short = truncate_to_max_length(String::from("abc"), 5);
    assert_eq!(short, "abc");

    let cut = truncate_to_max_length(String::from("abcdefgh"), 4);
    assert_eq!(cut, "abcd");

    let exact = truncate_to_max_length(String::from("abcde"), 5);
    assert_eq!(exact, "abcde");
}

#[test]
fn truncate_number_keeps_short_values() {
    assert_eq!(truncate_number(1987, 4), 1987);
    assert_eq!(truncate_number(9999, 4), 9999);
    assert_eq!(truncate_number(12345, 4), 2345);
    assert_eq!(truncate_number(1000, 3), 0);
    assert_eq!(truncate_number(7, 1), 7);
    assert_eq!(truncate_number(4294967295, 9), 294967295);
}
