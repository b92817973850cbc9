use sniffy::processor::{is_binary_content, FileProcessor};

#[test]
fn test_file_processor_new() {
    let _processor = FileProcessor::new();
    // Just verify it creates successfully
}

#[test]
fn test_is_binary_content() {
    assert!(!is_binary_content(b""));
    assert!(!is_binary_content(b"This is a text file\nwith multiple lines\n"));
    assert!(is_binary_content(&[0x89, 0x50, 0x4E, 0x47, 0x00, 0x0D, 0x0A, 0x1A]));
}

#[test]
fn test_process_lines_rust() {
    // A Rust-recognized file, classified end to end.
    let processor = FileProcessor::new();
    let lines = vec![
        "// header".to_string(),
        "".to_string(),
        "fn f() {".to_string(),
        "let x = 5; // c".to_string(),
        "}".to_string(),
    ];
    let (language, stats) = processor.process_lines("src/f.rs", &lines).unwrap();
    assert_eq!(language, "Rust");
    assert_eq!(stats.blank, 1);
    assert_eq!(stats.comment, 1);
    assert_eq!(stats.code, 3);
    assert_eq!(stats.total(), 5);
}

#[test]
fn test_detects() {
    let processor = FileProcessor::new();
    assert!(processor.detects("src/main.rs"));
    assert!(processor.detects("a.PY"));
    assert!(!processor.detects("file.unknown"));
    assert!(!processor.detects("Makefile"));
}

#[test]
fn test_process_lines_unknown_extension() {
    let processor = FileProcessor::new();
    let lines = vec!["some content".to_string()];
    assert!(processor.process_lines("file.unknown", &lines).is_none());
}

#[test]
fn test_process_lines_empty_file() {
    let processor = FileProcessor::new();
    let lines: Vec<String> = Vec::new();
    let (language, stats) = processor.process_lines("a.rs", &lines).unwrap();
    assert_eq!(language, "Rust");
    assert_eq!(stats.blank, 0);
    assert_eq!(stats.comment, 0);
    assert_eq!(stats.code, 0);
}
