//! Directory walking support.
//!
//! The walker's option set, and the skip rules for dependency, build,
//! version-control, cache and IDE directories, minified assets and lock
//! files. Walking the file system itself is the caller's work.

use vstd::prelude::*;
use vstd::string::StrSliceExecFns;
use vstd::string::StringExecFns;
use crate::text::{
    matches_at, ends_with, str_find, str_eq, str_ends_with, lemma_find_from_some,
    lemma_find_from_none, lemma_find_from_none_before,
};

verus! {

/// The segments of a path between separators.
pub open spec fn split_path(s: Seq<char>) -> Seq<Seq<char>>
    decreases s.len(),
{
    if s.len() == 0 {
        seq![Seq::<char>::empty()]
    } else if s[0] == '/' {
        seq![Seq::<char>::empty()] + split_path(s.drop_first())
    } else {
        let rest = split_path(s.drop_first());
        seq![seq![s[0]] + rest[0]] + rest.drop_first()
    }
}

/// A path splits into at least one segment.
pub proof fn lemma_split_nonempty(s: Seq<char>)
    ensures
        split_path(s).len() >= 1,
    decreases s.len(),
{
    if s.len() > 0 {
        lemma_split_nonempty(s.drop_first());
    }
}

/// Splitting at the first separator: the head segment is everything
/// before it, the rest are the segments after it.
pub proof fn lemma_split_at_first_sep(s: Seq<char>, i: int)
    requires
        0 <= i < s.len(),
        s[i] == '/',
        forall|j: int| 0 <= j < i ==> s[j] != '/',
    ensures
        split_path(s) == seq![s.take(i)] + split_path(s.skip(i + 1)),
    decreases i,
{
    lemma_split_nonempty(s.drop_first());
    if i == 0 {
        assert(s.take(0) =~= Seq::<char>::empty());
        assert(s.skip(1) =~= s.drop_first());
        assert(split_path(s) =~= seq![s.take(0)] + split_path(s.skip(1)));
    } else {
        let t = s.drop_first();
        assert forall|j: int| 0 <= j < i - 1 implies t[j] != '/' by {
            assert(t[j] == s[j + 1]);
        }
        assert(t[i - 1] == s[i]);
        lemma_split_at_first_sep(t, i - 1);
        let rest = split_path(t);
        assert(rest[0] == t.take(i - 1));
        assert(seq![s[0]] + t.take(i - 1) =~= s.take(i));
        assert(rest.drop_first() =~= (seq![t.take(i - 1)] + split_path(t.skip(i))).drop_first());
        assert(rest.drop_first() =~= split_path(t.skip(i)));
        assert(t.skip(i) =~= s.skip(i + 1));
        assert(split_path(s) =~= seq![s.take(i)] + split_path(s.skip(i + 1)));
    }
}

/// A path without separators is one segment: itself.
pub proof fn lemma_split_no_sep(s: Seq<char>)
    requires
        forall|j: int| 0 <= j < s.len() ==> s[j] != '/',
    ensures
        split_path(s) == seq![s],
    decreases s.len(),
{
    if s.len() > 0 {
        let t = s.drop_first();
        assert forall|j: int| 0 <= j < t.len() implies t[j] != '/' by {
            assert(t[j] == s[j + 1]);
        }
        lemma_split_no_sep(t);
        assert(seq![s[0]] + t =~= s);
        assert(split_path(s) =~= seq![s]);
    } else {
        assert(s =~= Seq::<char>::empty());
        assert(split_path(s) =~= seq![s]);
    }
}

/// The executable split of a path into its segments.
fn split_segments<'a>(s: &'a str) -> (r: Vec<&'a str>)
    ensures
        r@.map_values(|x: &str| x@) == split_path(s@),
        r@.len() >= 1,
    decreases s@.len(),
{
    let n = s.unicode_len();
    proof {
        reveal_strlit("/");
        assert("/"@ =~= seq!['/']);
    }
    match str_find(s, "/") {
        Some(i) => {
            proof {
                lemma_find_from_some(s@, "/"@, 0, i as int);
                lemma_find_from_none_before(s@, "/"@, 0, i as int);
                assert(s@.subrange(i as int, i + 1)[0] == s@[i as int]);
                assert forall|j: int| 0 <= j < i implies s@[j] != '/' by {
                    if s@[j] == '/' {
                        assert(s@.subrange(j, j + 1) =~= "/"@);
                        assert(matches_at(s@, "/"@, j));
                    }
                }
                lemma_split_at_first_sep(s@, i as int);
            }
            let head = s.substring_char(0, i);
            let tail = s.substring_char(i + 1, n);
            let mut rest = split_segments(tail);
            let mut r: Vec<&str> = Vec::new();
            r.push(head);
            r.append(&mut rest);
            proof {
                assert(head@ =~= s@.take(i as int));
                assert(tail@ =~= s@.skip(i + 1));
                assert(r@.map_values(|x: &str| x@) =~= split_path(s@));
            }
            r
        },
        None => {
            proof {
                lemma_find_from_none(s@, "/"@, 0);
                assert forall|j: int| 0 <= j < s@.len() implies s@[j] != '/' by {
                    if s@[j] == '/' {
                        assert(s@.subrange(j, j + 1) =~= "/"@);
                        assert(matches_at(s@, "/"@, j));
                    }
                }
                lemma_split_no_sep(s@);
            }
            let mut r: Vec<&str> = Vec::new();
            r.push(s);
            proof {
                assert(r@.map_values(|x: &str| x@) =~= split_path(s@));
            }
            r
        },
    }
}

/// A directory name that is always skipped: dependencies, build
/// output, version control, caches, virtual environments, IDE state.
pub open spec fn is_skip_dir(seg: Seq<char>) -> bool {
    ||| seg == "node_modules"@
    ||| seg == "vendor"@
    ||| seg == "bower_components"@
    ||| seg == "target"@
    ||| seg == "build"@
    ||| seg == "dist"@
    ||| seg == "out"@
    ||| seg == ".next"@
    ||| seg == ".git"@
    ||| seg == ".svn"@
    ||| seg == ".hg"@
    ||| seg == ".venv"@
    ||| seg == "venv"@
    ||| seg == "__pycache__"@
    ||| seg == ".pytest_cache"@
    ||| seg == ".idea"@
    ||| seg == ".vscode"@
    ||| seg == ".vs"@
    ||| seg == ".DS_Store"@
}

/// A file name that is always skipped: minified assets and lock files.
pub open spec fn is_skip_name(f: Seq<char>) -> bool {
    ||| ends_with(f, ".min.js"@)
    ||| ends_with(f, ".min.css"@)
    ||| f == "package-lock.json"@
    ||| f == "yarn.lock"@
    ||| f == "pnpm-lock.yaml"@
    ||| f == "Cargo.lock"@
    ||| f == "Gemfile.lock"@
    ||| f == "poetry.lock"@
    ||| f == "composer.lock"@
    ||| f == "go.sum"@
}

/// A path is skipped when any of its segments is a skipped directory
/// name, or its file name is a skipped file name.
pub open spec fn should_skip_spec(path: Seq<char>) -> bool {
    let c = split_path(path);
    (exists|i: int| 0 <= i < c.len() && is_skip_dir(c[i])) || is_skip_name(c.last())
}

/// Whether a segment is a skipped directory name.
fn seg_is_skip_dir(seg: &str) -> (r: bool)
    ensures
        r == is_skip_dir(seg@),
{
    str_eq(seg, "node_modules") || str_eq(seg, "vendor") || str_eq(seg, "bower_components")
        || str_eq(seg, "target") || str_eq(seg, "build") || str_eq(seg, "dist") || str_eq(
        seg,
        "out",
    ) || str_eq(seg, ".next") || str_eq(seg, ".git") || str_eq(seg, ".svn") || str_eq(seg, ".hg")
        || str_eq(seg, ".venv") || str_eq(seg, "venv") || str_eq(seg, "__pycache__") || str_eq(
        seg,
        ".pytest_cache",
    ) || str_eq(seg, ".idea") || str_eq(seg, ".vscode") || str_eq(seg, ".vs") || str_eq(
        seg,
        ".DS_Store",
    )
}

/// Whether a file name is a skipped file name.
fn name_is_skip_name(f: &str) -> (r: bool)
    ensures
        r == is_skip_name(f@),
{
    str_ends_with(f, ".min.js") || str_ends_with(f, ".min.css") || str_eq(f, "package-lock.json")
        || str_eq(f, "yarn.lock") || str_eq(f, "pnpm-lock.yaml") || str_eq(f, "Cargo.lock")
        || str_eq(f, "Gemfile.lock") || str_eq(f, "poetry.lock") || str_eq(f, "composer.lock")
        || str_eq(f, "go.sum")
}

/// Check if a file should be skipped based on common patterns.
///
/// This function filters out:
/// - Common dependency directories (node_modules, target, etc.)
/// - Build output directories (build, dist, etc.)
/// - Version control directories (.git, .svn, etc.)
/// - Python cache directories (__pycache__, .venv, venv)
/// - Minified files (*.min.js, *.min.css)
/// - Lock files (package-lock.json, Cargo.lock, etc.)
pub fn should_skip_file(path: &str) -> (r: bool)
    ensures
        r == should_skip_spec(path@),
{
    let segs = split_segments(path);
    let n = segs.len();
    let ghost c = split_path(path@);
    let mut i: usize = 0;
    while i < n
        invariant
            i <= n,
            n == segs@.len(),
            segs@.map_values(|x: &str| x@) == c,
            c == split_path(path@),
            forall|j: int| 0 <= j < i ==> !is_skip_dir(c[j]),
        decreases n - i,
    {
        proof {
            assert(c[i as int] == segs@[i as int]@);
        }
        if seg_is_skip_dir(segs[i]) {
            return true;
        }
        i = i + 1;
    }
    proof {
        assert(c[n - 1] == segs@[n - 1]@);
        assert(c.last() == segs@[n - 1]@);
    }
    name_is_skip_name(segs[n - 1])
}

/// Directory walker options: roots, hidden-file inclusion and
/// include or exclude glob patterns, honored by the caller's walk.
#[derive(Debug)]
pub struct DirectoryWalker {
    pub paths: Vec<String>,
    pub hidden: bool,
    pub exclude: Vec<String>,
    pub include_patterns: Vec<String>,
}

impl DirectoryWalker {
    /// Create a new DirectoryWalker for the given path.
    pub fn new(path: &str) -> (r: DirectoryWalker)
        ensures
            r.paths@.len() == 1,
            r.paths@[0]@ == path@,
            !r.hidden,
            r.exclude@.len() == 0,
            r.include_patterns@.len() == 0,
    {
        DirectoryWalker {
            paths: vec![String::from_str(path)],
            hidden: false,
            exclude: Vec::new(),
            include_patterns: Vec::new(),
        }
    }

    /// Set whether to include hidden files and directories.
    pub fn hidden(self, hidden: bool) -> (r: DirectoryWalker)
        ensures
            r.paths == self.paths,
            r.hidden == hidden,
            r.exclude == self.exclude,
            r.include_patterns == self.include_patterns,
    {
        DirectoryWalker { hidden, ..self }
    }

    /// Set exclude patterns (glob patterns to exclude).
    pub fn exclude(self, patterns: Vec<String>) -> (r: DirectoryWalker)
        ensures
            r.paths == self.paths,
            r.hidden == self.hidden,
            r.exclude == patterns,
            r.include_patterns == self.include_patterns,
    {
        DirectoryWalker { exclude: patterns, ..self }
    }

    /// Set include patterns (glob patterns to include, overrides
    /// excludes).
    pub fn include_patterns(self, patterns: Vec<String>) -> (r: DirectoryWalker)
        ensures
            r.paths == self.paths,
            r.hidden == self.hidden,
            r.exclude == self.exclude,
            r.include_patterns == patterns,
    {
        DirectoryWalker { include_patterns: patterns, ..self }
    }
}

} // verus!
