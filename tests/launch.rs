use doc_launch::launch::{
    command_line_args,
    has_document_extension, is_document_file, startup_notice, supported_files, FILE_ARGS_DELAY_MS,
    FILE_ARGS_EVENT,
};

fn args(list: &[&str]) -> Vec<String> {
    list.iter().map(|s| s.to_string()).collect()
}

#[test]
fn extension_of_lowered_paths() {
    assert!(has_document_extension("notes.md"));
    assert!(has_document_extension("notes.markdown"));
    assert!(has_document_extension("notes.txt"));
    assert!(has_document_extension(".md"));
    assert!(!has_document_extension("notes.rs"));
    assert!(!has_document_extension("notes.md.bak"));
    assert!(!has_document_extension("md"));
    assert!(!has_document_extension(""));
}

#[test]
fn extension_check_needs_lowered_input() {
    assert!(!has_document_extension("NOTES.MD"));
}

#[test]
fn document_file_ignores_case() {
    assert!(is_document_file("NOTES.MD"));
    assert!(is_document_file("Readme.Markdown"));
    assert!(is_document_file("/home/user/LOG.TxT"));
    assert!(is_document_file("plain.md"));
    assert!(!is_document_file("image.PNG"));
    assert!(!is_document_file("archive.txt.gz"));
    assert!(!is_document_file(""));
}

#[test]
fn no_arguments_gives_no_files() {
    assert!(supported_files(&args(&[])).is_empty());
}

#[test]
fn program_path_alone_gives_no_files() {
    assert!(supported_files(&args(&["/usr/bin/viewer"])).is_empty());
}

#[test]
fn program_path_is_never_a_file() {
    assert!(supported_files(&args(&["viewer.md"])).is_empty());
    assert_eq!(
        supported_files(&args(&["viewer.md", "a.txt"])),
        args(&["a.txt"])
    );
}

#[test]
fn files_keep_their_order_and_case() {
    let given = args(&["viewer", "b.MD", "skip.rs", "a.txt", "--flag", "C.Markdown"]);
    assert_eq!(
        supported_files(&given),
        args(&["b.MD", "a.txt", "C.Markdown"])
    );
}

#[test]
fn repeated_files_are_kept() {
    let given = args(&["viewer", "a.md", "a.md"]);
    assert_eq!(supported_files(&given), args(&["a.md", "a.md"]));
}

#[test]
fn notice_names_the_first_document() {
    let given = args(&["viewer", "--verbose", "first.TXT", "second.md"]);
    let notice = startup_notice(&given).expect("a document was given");
    assert_eq!(notice.path, "first.TXT");
    assert_eq!(notice.delay_ms, 2000);
    assert_eq!(notice.delay_ms, FILE_ARGS_DELAY_MS);
}

#[test]
fn no_notice_without_documents() {
    assert!(startup_notice(&args(&[])).is_none());
    assert!(startup_notice(&args(&["viewer"])).is_none());
    assert!(startup_notice(&args(&["viewer", "a.rs", "b.pdf"])).is_none());
}

#[test]
fn event_name() {
    assert_eq!(FILE_ARGS_EVENT, "tauri://file-args");
}

#[test]
fn arguments_pass_through_unchanged() {
    let given = args(&["/usr/bin/viewer", "B.MD", "", "a.txt", "", "a.txt", "--Flag"]);
    assert_eq!(command_line_args(given.clone()), given);
}

#[test]
fn arguments_keep_their_order() {
    let given = args(&["z", "y", "x"]);
    assert_eq!(command_line_args(given), args(&["z", "y", "x"]));
}

#[test]
fn no_arguments_pass_through() {
    assert!(command_line_args(Vec::new()).is_empty());
}

#[test]
fn repeated_requests_agree() {
    let given = args(&["viewer", "notes.md"]);
    assert_eq!(command_line_args(given.clone()), command_line_args(given.clone()));
}
