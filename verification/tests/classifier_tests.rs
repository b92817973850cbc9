use sniffy::classifier::{classify_file, ClassifierState, LineClassifier, LineType};
use sniffy::language::{languages, CommentPair, LanguageInfo};

fn get_rust_language() -> LanguageInfo {
    languages().into_iter().find(|l| l.name == "Rust").unwrap()
}

fn get_python_language() -> LanguageInfo {
    languages().into_iter().find(|l| l.name == "Python").unwrap()
}

#[test]
fn test_line_type_equality() {
    assert_eq!(LineType::Blank, LineType::Blank);
    assert_eq!(LineType::Comment, LineType::Comment);
    assert_eq!(LineType::Code, LineType::Code);
    assert_ne!(LineType::Blank, LineType::Code);
}

#[test]
fn test_classifier_state_new() {
    let state = ClassifierState::new();
    assert!(!state.in_multi_line_comment);
    assert!(state.current_delimiter.is_none());
}

#[test]
fn test_classifier_state_reset() {
    let mut state = ClassifierState::new();
    state.in_multi_line_comment = true;
    state.current_delimiter = Some(CommentPair::new("/*", "*/"));

    state.reset();
    assert!(!state.in_multi_line_comment);
    assert!(state.current_delimiter.is_none());
}

#[test]
fn test_classify_blank_lines() {
    let lang = get_rust_language();
    let classifier = LineClassifier::new(&lang);
    let mut state = ClassifierState::new();

    assert_eq!(classifier.classify_line("", &mut state), LineType::Blank);
    assert_eq!(classifier.classify_line("   ", &mut state), LineType::Blank);
    assert_eq!(classifier.classify_line("\t\t", &mut state), LineType::Blank);
    assert_eq!(classifier.classify_line("  \t  ", &mut state), LineType::Blank);
}

#[test]
fn test_classify_single_line_comments() {
    let lang = get_rust_language();
    let classifier = LineClassifier::new(&lang);
    let mut state = ClassifierState::new();

    assert_eq!(
        classifier.classify_line("// this is a comment", &mut state),
        LineType::Comment
    );
    assert_eq!(
        classifier.classify_line("  // comment with leading spaces", &mut state),
        LineType::Comment
    );
    assert_eq!(
        classifier.classify_line("/// doc comment", &mut state),
        LineType::Comment
    );
    assert_eq!(
        classifier.classify_line("//! inner doc comment", &mut state),
        LineType::Comment
    );
}

#[test]
fn test_classify_code_lines() {
    let lang = get_rust_language();
    let classifier = LineClassifier::new(&lang);
    let mut state = ClassifierState::new();

    assert_eq!(
        classifier.classify_line("let x = 5;", &mut state),
        LineType::Code
    );
    assert_eq!(
        classifier.classify_line("fn main() {", &mut state),
        LineType::Code
    );
    assert_eq!(
        classifier.classify_line("    println!(\"hello\");", &mut state),
        LineType::Code
    );
}

#[test]
fn test_classify_mixed_lines() {
    let lang = get_rust_language();
    let classifier = LineClassifier::new(&lang);
    let mut state = ClassifierState::new();

    // Code with trailing comment should be Code
    assert_eq!(
        classifier.classify_line("let x = 5; // comment", &mut state),
        LineType::Code
    );
}

#[test]
fn test_classify_multi_line_comment_single_line() {
    let lang = get_rust_language();
    let classifier = LineClassifier::new(&lang);
    let mut state = ClassifierState::new();

    // Complete multi-line comment on one line
    assert_eq!(
        classifier.classify_line("/* comment */", &mut state),
        LineType::Comment
    );
    assert_eq!(
        classifier.classify_line("  /* comment */  ", &mut state),
        LineType::Comment
    );
}

#[test]
fn test_classify_multi_line_comment_with_code() {
    let lang = get_rust_language();
    let classifier = LineClassifier::new(&lang);
    let mut state = ClassifierState::new();

    // Multi-line comment with code after
    assert_eq!(
        classifier.classify_line("/* comment */ let x = 5;", &mut state),
        LineType::Code
    );

    // Code with multi-line comment after
    assert_eq!(
        classifier.classify_line("let x = 5; /* comment */", &mut state),
        LineType::Code
    );
}

#[test]
fn test_classify_multi_line_comment_spanning() {
    let lang = get_rust_language();
    let classifier = LineClassifier::new(&lang);
    let mut state = ClassifierState::new();

    // Start of multi-line comment
    assert_eq!(
        classifier.classify_line("/* start of comment", &mut state),
        LineType::Comment
    );
    assert!(state.in_multi_line_comment);

    // Middle of multi-line comment
    assert_eq!(
        classifier.classify_line("still in comment", &mut state),
        LineType::Comment
    );
    assert!(state.in_multi_line_comment);

    // End of multi-line comment
    assert_eq!(
        classifier.classify_line("end of comment */", &mut state),
        LineType::Comment
    );
    assert!(!state.in_multi_line_comment);
}

#[test]
fn test_classify_multi_line_comment_with_code_after_end() {
    let lang = get_rust_language();
    let classifier = LineClassifier::new(&lang);
    let mut state = ClassifierState::new();

    assert_eq!(
        classifier.classify_line("/* comment", &mut state),
        LineType::Comment
    );
    assert_eq!(
        classifier.classify_line("more comment */ let x = 5;", &mut state),
        LineType::Code
    );
    assert!(!state.in_multi_line_comment);
}

#[test]
fn test_classify_shebang() {
    let lang = get_python_language();
    let classifier = LineClassifier::new(&lang);
    let mut state = ClassifierState::new();

    assert_eq!(
        classifier.classify_line("#!/usr/bin/env python3", &mut state),
        LineType::Code
    );
}

#[test]
fn test_classify_python_triple_quotes() {
    let lang = get_python_language();
    let classifier = LineClassifier::new(&lang);
    let mut state = ClassifierState::new();

    // Single line docstring
    assert_eq!(
        classifier.classify_line("\"\"\"This is a docstring\"\"\"", &mut state),
        LineType::Comment
    );

    // Multi-line docstring
    state.reset();
    assert_eq!(
        classifier.classify_line("\"\"\"", &mut state),
        LineType::Comment
    );
    assert_eq!(
        classifier.classify_line("Docstring content", &mut state),
        LineType::Comment
    );
    assert_eq!(
        classifier.classify_line("\"\"\"", &mut state),
        LineType::Comment
    );
}

#[test]
fn test_classify_file() {
    let lang = get_rust_language();
    let lines = vec![
        "// File header comment".to_string(),
        "".to_string(),
        "fn main() {".to_string(),
        "    let x = 5; // inline comment".to_string(),
        "    /* multi-line".to_string(),
        "       comment */".to_string(),
        "    println!(\"hello\");".to_string(),
        "}".to_string(),
    ];

    let stats = classify_file(&lines, &lang);
    assert_eq!(stats.blank, 1);
    assert_eq!(stats.comment, 3); // header + 2 lines of multi-line comment
    assert_eq!(stats.code, 4); // main, let x (with comment), println, }
}

#[test]
fn test_empty_multi_line_comment() {
    let lang = get_rust_language();
    let classifier = LineClassifier::new(&lang);
    let mut state = ClassifierState::new();

    assert_eq!(
        classifier.classify_line("/**/", &mut state),
        LineType::Comment
    );
}

#[test]
fn test_code_before_multi_line_start() {
    let lang = get_rust_language();
    let classifier = LineClassifier::new(&lang);
    let mut state = ClassifierState::new();

    // Code before multi-line comment start
    assert_eq!(
        classifier.classify_line("let x = 5; /* comment", &mut state),
        LineType::Code
    );
    assert!(state.in_multi_line_comment);

    assert_eq!(
        classifier.classify_line("continues */", &mut state),
        LineType::Comment
    );
}

#[test]
fn test_span_three_lines() {
    let lang = get_rust_language();
    let classifier = LineClassifier::new(&lang);
    let mut state = ClassifierState::new();

    assert_eq!(classifier.classify_line("/* start", &mut state), LineType::Comment);
    assert!(state.in_multi_line_comment);
    assert_eq!(classifier.classify_line("middle", &mut state), LineType::Comment);
    assert!(state.in_multi_line_comment);
    assert_eq!(classifier.classify_line("end */", &mut state), LineType::Comment);
    assert!(!state.in_multi_line_comment);
}

#[test]
fn test_blank_inside_open_comment() {
    let lang = get_rust_language();
    let classifier = LineClassifier::new(&lang);
    let mut state = ClassifierState::new();

    assert_eq!(classifier.classify_line("/* open", &mut state), LineType::Comment);
    // A blank line inside an open span is still blank, and the span stays open.
    assert_eq!(classifier.classify_line("   ", &mut state), LineType::Blank);
    assert!(state.in_multi_line_comment);
    assert_eq!(classifier.classify_line("close */", &mut state), LineType::Comment);
    assert!(!state.in_multi_line_comment);
}

#[test]
fn test_shebang_for_shell() {
    let lang = languages().into_iter().find(|l| l.name == "Shell").unwrap();
    let classifier = LineClassifier::new(&lang);
    let mut state = ClassifierState::new();

    // Shebang wins over the '#' single-line marker.
    assert_eq!(
        classifier.classify_line("#!/usr/bin/env x", &mut state),
        LineType::Code
    );
    assert_eq!(classifier.classify_line("# comment", &mut state), LineType::Comment);
}

#[test]
fn test_earliest_start_delimiter_wins() {
    // Two pairs; the one occurring earlier in the line decides, not the
    // one registered first.
    let lang = LanguageInfo::new(
        "X",
        vec!["x".to_string()],
        vec![],
        vec![CommentPair::new("<<", ">>"), CommentPair::new("[[", "]]")],
    );
    let classifier = LineClassifier::new(&lang);
    let mut state = ClassifierState::new();

    assert_eq!(classifier.classify_line("[[ note ]]", &mut state), LineType::Comment);
    assert!(!state.in_multi_line_comment);
    assert_eq!(classifier.classify_line("[[ open", &mut state), LineType::Comment);
    assert!(state.in_multi_line_comment);
    // Inside the [[ span, a >> does not close it.
    assert_eq!(classifier.classify_line("still >> open", &mut state), LineType::Comment);
    assert_eq!(classifier.classify_line("done ]]", &mut state), LineType::Comment);
    assert!(!state.in_multi_line_comment);
}
