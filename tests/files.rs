use note_convert::files::{
    get_file_name_from_path, html_for_open, parse_file_type, prepare_save, CommandError, FileType,
};

#[test]
fn file_name_is_last_component() {
    assert_eq!(get_file_name_from_path("/home/u/notes/a.txt"), "a.txt");
    assert_eq!(get_file_name_from_path("notes/b.html/"), "b.html");
}

#[test]
fn file_name_falls_back_to_untitled() {
    assert_eq!(get_file_name_from_path("/"), "Untitled");
    assert_eq!(get_file_name_from_path("a/.."), "Untitled");
    assert_eq!(get_file_name_from_path(""), "Untitled");
}

#[test]
fn file_types() {
    assert_eq!(parse_file_type("html"), Some(FileType::Html));
    assert_eq!(parse_file_type("txt"), Some(FileType::Txt));
    assert_eq!(parse_file_type("md"), None);
    assert_eq!(parse_file_type("HTML"), None);
}

#[test]
fn save_needs_a_path() {
    assert_eq!(prepare_save("<p>x</p>", "", "txt"), Err(CommandError::NoFilePath));
}

#[test]
fn save_rejects_unknown_type() {
    assert_eq!(prepare_save("<p>x</p>", "/tmp/n.md", "md"), Err(CommandError::UnsupportedFileType));
}

#[test]
fn save_converts_by_type() {
    assert_eq!(prepare_save("<p>x</p>", "/tmp/n.html", "html"), Ok("<p>x</p>".to_string()));
    assert_eq!(prepare_save("<p>x</p><p>y</p>", "/tmp/n.txt", "txt"), Ok("x\n\ny".to_string()));
}

#[test]
fn open_converts_text_files_only() {
    assert_eq!(html_for_open("a\n\nb", "txt"), "<p>a</p><p>b</p>");
    assert_eq!(html_for_open("<p>a</p>", "html"), "<p>a</p>");
    assert_eq!(html_for_open("a<b", "md"), "a<b");
}
