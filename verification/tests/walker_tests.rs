use sniffy::walker::{should_skip_file, DirectoryWalker};
use tempfile::TempDir;

#[test]
fn test_directory_walker_new() {
    let temp_dir = TempDir::new().unwrap();
    let walker = DirectoryWalker::new(temp_dir.path().to_str().unwrap());
    assert!(!walker.hidden);
}

#[test]
fn test_directory_walker_hidden() {
    let temp_dir = TempDir::new().unwrap();
    let walker = DirectoryWalker::new(temp_dir.path().to_str().unwrap()).hidden(true);
    assert!(walker.hidden);
}

#[test]
fn test_directory_walker_patterns() {
    let walker = DirectoryWalker::new(".")
        .exclude(vec!["*.js".to_string()])
        .include_patterns(vec!["*.rs".to_string(), "*.py".to_string()]);
    assert_eq!(walker.exclude.len(), 1);
    assert_eq!(walker.include_patterns.len(), 2);
    assert_eq!(walker.paths.len(), 1);
}

#[test]
fn test_should_skip_file_function() {
    // Test dependency directories
    assert!(should_skip_file("/project/node_modules/package/index.js"));
    assert!(should_skip_file("/project/vendor/lib.rb"));

    // Test build directories
    assert!(should_skip_file("/project/target/release/binary"));
    assert!(should_skip_file("/project/build/output.js"));
    assert!(should_skip_file("/project/dist/bundle.js"));

    // Test version control
    assert!(should_skip_file("/project/.git/config"));
    assert!(should_skip_file("/project/.svn/entries"));

    // Test Python
    assert!(should_skip_file("/project/venv/lib/python.py"));
    assert!(should_skip_file("/project/.venv/activate"));
    assert!(should_skip_file("/project/__pycache__/module.pyc"));

    // Test minified files
    assert!(should_skip_file("/project/app.min.js"));
    assert!(should_skip_file("/project/style.min.css"));

    // Test lock files
    assert!(should_skip_file("/project/package-lock.json"));
    assert!(should_skip_file("/project/Cargo.lock"));
    assert!(should_skip_file("/project/yarn.lock"));

    // Test that regular files are NOT skipped
    assert!(!should_skip_file("/project/src/main.rs"));
    assert!(!should_skip_file("/project/app.js"));
    assert!(!should_skip_file("/project/style.css"));
    assert!(!should_skip_file("/project/Cargo.toml"));
}
