use sniffy::language::{languages, LanguageDetector};

#[test]
fn test_language_detector_new() {
    let detector = LanguageDetector::new();
    assert!(!detector.languages.is_empty());
}

#[test]
fn test_detect_rust() {
    let detector = LanguageDetector::new();
    let lang = detector.detect_from_path("main.rs");
    assert!(lang.is_some());
    assert_eq!(lang.unwrap().name, "Rust");
}

#[test]
fn test_detect_python() {
    let detector = LanguageDetector::new();
    let lang = detector.detect_from_path("script.py");
    assert!(lang.is_some());
    assert_eq!(lang.unwrap().name, "Python");
}

#[test]
fn test_detect_javascript() {
    let detector = LanguageDetector::new();
    let lang = detector.detect_from_path("app.js");
    assert!(lang.is_some());
    assert_eq!(lang.unwrap().name, "JavaScript");
}

#[test]
fn test_detect_typescript() {
    let detector = LanguageDetector::new();
    let lang = detector.detect_from_path("component.tsx");
    assert!(lang.is_some());
    assert_eq!(lang.unwrap().name, "TypeScript");
}

#[test]
fn test_detect_case_insensitive() {
    let detector = LanguageDetector::new();
    let lang = detector.detect_from_path("main.RS");
    assert!(lang.is_some());
    assert_eq!(lang.unwrap().name, "Rust");
}

#[test]
fn test_detect_unknown_extension() {
    let detector = LanguageDetector::new();
    let lang = detector.detect_from_path("file.unknown");
    assert!(lang.is_none());
}

#[test]
fn test_detect_no_extension() {
    let detector = LanguageDetector::new();
    let lang = detector.detect_from_path("Makefile");
    assert!(lang.is_none());
}

#[test]
fn test_c_vs_cpp() {
    let detector = LanguageDetector::new();

    let c_lang = detector.detect_from_path("main.c");
    assert_eq!(c_lang.unwrap().name, "C");

    let cpp_lang = detector.detect_from_path("main.cpp");
    assert_eq!(cpp_lang.unwrap().name, "C++");
}

#[test]
fn test_all_languages_have_extensions() {
    for lang in languages() {
        assert!(!lang.extensions.is_empty(), "Language {} has no extensions", lang.name);
    }
}

#[test]
fn test_detect_nested_path() {
    let detector = LanguageDetector::new();
    let lang = detector.detect_from_path("/some/dir/deep/main.go");
    assert_eq!(lang.unwrap().name, "Go");
    // A dotted directory does not give an extension to a plain file name.
    assert!(detector.detect_from_path("/some.rs/Makefile").is_none());
}

#[test]
fn test_detect_hidden_file_without_extension() {
    let detector = LanguageDetector::new();
    // A leading dot alone does not make an extension.
    assert!(detector.detect_from_path(".gitignore").is_none());
    assert!(detector.detect_from_path(".rs").is_none());
}
