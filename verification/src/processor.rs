//! File processing.
//!
//! The computing half of per-file work: deciding from a sample of bytes
//! whether a file reads as binary, and turning a path and its decoded
//! lines into a language name with line statistics. Reading the bytes
//! and the lines from disk is the caller's work.

use vstd::prelude::*;
use crate::classifier::{classify_file, run_classifier};
use crate::language::{LanguageDetector, LangView, detect_spec, the_table};
use crate::stats::FileStats;

verus! {

/// Whether sampled file content reads as binary: it holds a null byte.
/// An empty sample is not binary.
pub fn is_binary_content(buf: &[u8]) -> (r: bool)
    ensures
        r == buf@.contains(0u8),
{
    let n = buf.len();
    let mut i: usize = 0;
    while i < n
        invariant
            i <= n,
            n == buf@.len(),
            forall|j: int| 0 <= j < i ==> buf@[j] != 0u8,
        decreases n - i,
    {
        if buf[i] == 0 {
            assert(buf@.contains(0u8));
            return true;
        }
        i = i + 1;
    }
    assert(!buf@.contains(0u8));
    false
}

/// File processor that analyzes files and returns statistics.
pub struct FileProcessor {
    detector: LanguageDetector,
}

impl View for FileProcessor {
    type V = Seq<LangView>;

    closed spec fn view(&self) -> Seq<LangView> {
        self.detector@
    }
}

impl FileProcessor {
    /// Create a new FileProcessor.
    pub fn new() -> (r: FileProcessor)
        ensures
            r@ == the_table(),
    {
        FileProcessor { detector: LanguageDetector::new() }
    }

    /// Whether the path's extension maps to a supported language.
    pub fn detects(&self, path: &str) -> (r: bool)
        ensures
            r == (detect_spec(self@, path@) is Some),
    {
        self.detector.detect_from_path(path).is_some()
    }

    /// Classify a file's decoded lines under the language its path maps
    /// to: the language's name and the line counts, or nothing when the
    /// extension is not recognized.
    pub fn process_lines(&self, path: &str, lines: &Vec<String>) -> (r: Option<(String, FileStats)>)
        ensures
            match r {
                Some(p) => {
                    &&& detect_spec(self@, path@) is Some
                    &&& p.0@ == self@[detect_spec(self@, path@)->0].name
                    &&& p.1@ == run_classifier(
                        self@[detect_spec(self@, path@)->0],
                        lines@.map_values(|l: String| l@),
                    ).0
                },
                None => detect_spec(self@, path@) is None,
            },
    {
        match self.detector.detect_from_path(path) {
            Some(language) => {
                let stats = classify_file(lines, language);
                Some((language.name.clone(), stats))
            },
            None => None,
        }
    }
}

impl Default for FileProcessor {
    fn default() -> (r: Self)
        ensures
            r@ == the_table(),
    {
        FileProcessor::new()
    }
}

} // verus!
