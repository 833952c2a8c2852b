use ourea::classify::{extension_of, is_hidden, is_text_file_extension, str_eq};
use ourea::tree::FileInfo;

#[test]
fn text_extensions_are_recognized() {
    for e in ["md", "markdown", "txt", "rs", "json", "yaml", "sh", "gitignore", "tex", "csv", "log"] {
        assert!(is_text_file_extension(Some(e)), "{}", e);
    }
}

#[test]
fn other_extensions_are_not_text() {
    assert!(!is_text_file_extension(None));
    assert!(!is_text_file_extension(Some("png")));
    assert!(!is_text_file_extension(Some("")));
    assert!(!is_text_file_extension(Some("mdx")));
}

#[test]
fn text_extension_match_is_case_sensitive() {
    assert!(!is_text_file_extension(Some("MD")));
    assert!(!is_text_file_extension(Some("Rs")));
}

#[test]
fn hidden_names_start_with_a_dot() {
    assert!(is_hidden(".git"));
    assert!(is_hidden("."));
    assert!(!is_hidden("notes.md"));
    assert!(!is_hidden(""));
}

#[test]
fn extension_follows_the_last_dot() {
    assert_eq!(extension_of("notes.md"), Some("md".to_string()));
    assert_eq!(extension_of("archive.tar.gz"), Some("gz".to_string()));
    assert_eq!(extension_of("trailing."), Some("".to_string()));
    assert_eq!(extension_of("Photo.PNG"), Some("PNG".to_string()));
}

#[test]
fn names_without_extension() {
    assert_eq!(extension_of("Makefile"), None);
    assert_eq!(extension_of(".gitignore"), None);
    assert_eq!(extension_of(".."), None);
    assert_eq!(extension_of(""), None);
}

#[test]
fn string_equality_by_characters() {
    assert!(str_eq("abc", "abc"));
    assert!(!str_eq("abc", "abd"));
    assert!(!str_eq("abc", "ab"));
    assert!(str_eq("", ""));
}

#[test]
fn file_info_takes_extension_from_name() {
    let info = FileInfo::from_metadata("Notes.MD".to_string(), "/d/Notes.MD".to_string(), 12, false, Some(7));
    assert_eq!(info.extension, Some("MD".to_string()));
    assert_eq!(info.size, 12);
    assert_eq!(info.modified, Some(7));
    let dir = FileInfo::from_metadata("src".to_string(), "/d/src".to_string(), 0, true, None);
    assert_eq!(dir.extension, None);
    assert!(dir.is_dir);
}
