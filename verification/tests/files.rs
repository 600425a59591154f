use seeklocal_core::discovery::{extension_for_record, file_extension, is_excluded_directory};
use seeklocal_core::extractor::{check_size, document_from_bytes, fingerprint};
use seeklocal_core::{error_category, extract_document, is_supported, should_visit, Error};

#[test]
fn dependency_and_system_folders_are_skipped_below_the_root() {
    assert!(!should_visit(true, 1, "node_modules"));
    assert!(!should_visit(true, 3, "Node_Modules"));
    assert!(!should_visit(true, 2, ".GIT"));
    assert!(!should_visit(true, 1, "System Volume Information"));
    assert!(should_visit(true, 0, "node_modules"));
    assert!(should_visit(false, 1, "node_modules"));
    assert!(should_visit(true, 1, "notes"));
    assert!(is_excluded_directory("$recycle.bin"));
    assert!(!is_excluded_directory("targets"));
}

#[test]
fn text_and_markdown_files_are_supported_in_any_case() {
    assert!(is_supported("notes.txt"));
    assert!(is_supported("README.MD"));
    assert!(is_supported("議事録📝.md"));
    assert!(is_supported("a.b.Markdown"));
    assert!(!is_supported(".md"));
    assert!(!is_supported("notes.txt.bak"));
    assert!(!is_supported("notes"));
    assert!(!is_supported(".."));
}

#[test]
fn extensions_follow_the_last_dot() {
    assert_eq!(file_extension("archive.tar.GZ"), Some("GZ".to_string()));
    assert_eq!(file_extension("trailing."), Some(String::new()));
    assert_eq!(file_extension(".hidden"), None);
    assert_eq!(file_extension("plain"), None);
    assert_eq!(extension_for_record("Notes.MD"), "md");
    assert_eq!(extension_for_record("plain"), "");
}

#[test]
fn fingerprints_are_blake3_in_lowercase_hex() {
    assert_eq!(
        fingerprint(b""),
        "af1349b9f5f9a1a6a0404dea36dcc9499bcb25c9adc112b7cc9a93cae41f3262"
    );
    assert_eq!(fingerprint("# 会議\nprivacy first 🔐".as_bytes()).len(), 64);
}

#[test]
fn extracts_japanese_unicode_and_emoji_from_bytes() {
    let bytes = "# 会議\nprivacy first 🔐".as_bytes().to_vec();
    let metadata = |_: usize| Ok((bytes.len() as u64, 42));
    let read = |_: usize| Ok(bytes.clone());
    let document = extract_document("議事録📝.md", "/docs/議事録📝.md", &metadata, &read, 0)
        .expect("extract succeeds");
    assert!(document.content.contains("会議"));
    assert!(document.content.contains('🔐'));
    assert_eq!(document.fingerprint, fingerprint(&bytes));
    assert_eq!(document.size, bytes.len() as u64);
    assert_eq!(document.modified_ns, 42);
}

#[test]
fn extraction_refuses_unsupported_large_and_binary_files() {
    let never = |_: usize| -> Result<(u64, i64), Error> { panic!("not reached") };
    let never_read = |_: usize| -> Result<Vec<u8>, Error> { panic!("not reached") };
    let unsupported = extract_document("photo.png", "/p/photo.png", &never, &never_read, 0);
    assert!(matches!(unsupported, Err(Error::Unsupported(ref p)) if p == "/p/photo.png"));

    let huge = |_: usize| Ok((16 * 1024 * 1024 + 1, 0));
    let large = extract_document("big.txt", "/p/big.txt", &huge, &never_read, 0);
    assert!(matches!(large, Err(Error::FileTooLarge(ref p)) if p == "/p/big.txt"));

    let small = |_: usize| Ok((2, 0));
    let binary = |_: usize| Ok(vec![0xff, 0xfe]);
    let invalid = extract_document("bin.md", "/p/bin.md", &small, &binary, 0);
    assert!(matches!(invalid, Err(Error::InvalidText(ref p)) if p == "/p/bin.md"));

    assert!(check_size("/p/x.txt", 16 * 1024 * 1024).is_ok());
    assert!(document_from_bytes("/p/x.txt", 1, 0, vec![b'a']).is_ok());
}

#[test]
fn failures_are_recorded_by_category() {
    assert_eq!(error_category(&Error::FileTooLarge("a".into())), "too_large");
    assert_eq!(error_category(&Error::InvalidText("a".into())), "invalid_text");
    assert_eq!(error_category(&Error::Unsupported("a".into())), "unsupported");
    let io = std::io::Error::new(std::io::ErrorKind::NotFound, "gone");
    assert_eq!(error_category(&Error::Io { path: "a".into(), source: io }), "read_failed");
    assert_eq!(error_category(&Error::NotIndexed), "unknown");
}
