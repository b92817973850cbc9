//! Language definitions and detection.
//!
//! Each language carries its file extensions and its comment syntax:
//! single-line markers and multi-line delimiter pairs. A detector maps a
//! path's extension, case-insensitively, to the first language that
//! registers it.

use vstd::prelude::*;
use vstd::string::StrSliceExecFns;
use vstd::string::StringExecFns;
use crate::text::{to_lower, lower_eq};

verus! {

/// Mathematical value of a `CommentPair`.
#[verifier::ext_equal]
pub struct PairView {
    pub start: Seq<char>,
    pub end: Seq<char>,
}

/// A pair of multi-line comment delimiters.
#[derive(Debug, Clone)]
pub struct CommentPair {
    pub start: String,
    pub end: String,
}

impl View for CommentPair {
    type V = PairView;

    open spec fn view(&self) -> PairView {
        PairView { start: self.start@, end: self.end@ }
    }
}

impl CommentPair {
    /// A pair from its two delimiter strings.
    pub fn new(start: &str, end: &str) -> (r: CommentPair)
        ensures
            r@ == (PairView { start: start@, end: end@ }),
    {
        CommentPair { start: String::from_str(start), end: String::from_str(end) }
    }
}

/// Mathematical value of a `LanguageInfo`.
#[verifier::ext_equal]
pub struct LangView {
    pub name: Seq<char>,
    pub extensions: Seq<Seq<char>>,
    pub singles: Seq<Seq<char>>,
    pub pairs: Seq<PairView>,
}

/// Information about a programming language.
#[derive(Debug, Clone)]
pub struct LanguageInfo {
    pub name: String,
    pub extensions: Vec<String>,
    pub single_line_comments: Vec<String>,
    pub multi_line_comments: Vec<CommentPair>,
}

impl View for LanguageInfo {
    type V = LangView;

    open spec fn view(&self) -> LangView {
        LangView {
            name: self.name@,
            extensions: self.extensions@.map_values(|x: String| x@),
            singles: self.single_line_comments@.map_values(|x: String| x@),
            pairs: self.multi_line_comments@.map_values(|p: CommentPair| p@),
        }
    }
}

impl LanguageInfo {
    /// A language from its name, extensions and comment syntax.
    pub fn new(
        name: &str,
        extensions: Vec<String>,
        single_line_comments: Vec<String>,
        multi_line_comments: Vec<CommentPair>,
    ) -> (r: LanguageInfo)
        ensures
            r.name@ == name@,
            r.extensions == extensions,
            r.single_line_comments == single_line_comments,
            r.multi_line_comments == multi_line_comments,
    {
        LanguageInfo {
            name: String::from_str(name),
            extensions,
            single_line_comments,
            multi_line_comments,
        }
    }
}

/// An owned copy of a string literal.
fn owned(x: &str) -> (r: String)
    ensures
        r@ == x@,
{
    String::from_str(x)
}

/// A delimiter pair view from its two strings.
pub open spec fn pair_of(start: Seq<char>, end: Seq<char>) -> PairView {
    PairView { start, end }
}

/// A language view from its parts.
pub open spec fn lang_of(
    name: Seq<char>,
    extensions: Seq<Seq<char>>,
    singles: Seq<Seq<char>>,
    pairs: Seq<PairView>,
) -> LangView {
    LangView { name, extensions, singles, pairs }
}

/// The registry: every supported language with its extensions and
/// comment syntax, in registration order. `languages` builds exactly
/// this table.
pub open spec fn the_table() -> Seq<LangView> {
    seq![
        lang_of(
            "JavaScript"@,
            seq!["js"@, "jsx"@, "mjs"@, "cjs"@],
            seq!["//"@],
            seq![pair_of("/*"@, "*/"@)],
        ),
        lang_of("TypeScript"@, seq!["ts"@, "tsx"@], seq!["//"@], seq![pair_of("/*"@, "*/"@)]),
        lang_of(
            "Python"@,
            seq!["py"@, "pyw"@],
            seq!["#"@],
            seq![pair_of("\"\"\""@, "\"\"\""@), pair_of("'''"@, "'''"@)],
        ),
        lang_of("Rust"@, seq!["rs"@], seq!["//"@, "///"@, "//!"@], seq![pair_of("/*"@, "*/"@)]),
        lang_of("Go"@, seq!["go"@], seq!["//"@], seq![pair_of("/*"@, "*/"@)]),
        lang_of("Java"@, seq!["java"@], seq!["//"@], seq![pair_of("/*"@, "*/"@)]),
        lang_of("C"@, seq!["c"@, "h"@], seq!["//"@], seq![pair_of("/*"@, "*/"@)]),
        lang_of(
            "C++"@,
            seq!["cpp"@, "cc"@, "cxx"@, "hpp"@, "hxx"@, "hh"@],
            seq!["//"@],
            seq![pair_of("/*"@, "*/"@)],
        ),
        lang_of("C#"@, seq!["cs"@], seq!["//"@], seq![pair_of("/*"@, "*/"@)]),
        lang_of("Ruby"@, seq!["rb"@], seq!["#"@], seq![pair_of("=begin"@, "=end"@)]),
        lang_of("Shell"@, seq!["sh"@, "bash"@, "zsh"@], seq!["#"@], Seq::empty()),
        lang_of("HTML"@, seq!["html"@, "htm"@], Seq::empty(), seq![pair_of("<!--"@, "-->"@)]),
        lang_of("CSS"@, seq!["css"@], Seq::empty(), seq![pair_of("/*"@, "*/"@)]),
        lang_of("SCSS"@, seq!["scss"@], seq!["//"@], seq![pair_of("/*"@, "*/"@)]),
        lang_of("Sass"@, seq!["sass"@], seq!["//"@], seq![pair_of("/*"@, "*/"@)]),
        lang_of(
            "Markdown"@,
            seq!["md"@, "markdown"@],
            Seq::empty(),
            seq![pair_of("<!--"@, "-->"@)],
        ),
        lang_of("JSON"@, seq!["json"@], Seq::empty(), Seq::empty()),
        lang_of("YAML"@, seq!["yaml"@, "yml"@], seq!["#"@], Seq::empty()),
        lang_of("XML"@, seq!["xml"@], Seq::empty(), seq![pair_of("<!--"@, "-->"@)]),
        lang_of("PHP"@, seq!["php"@], seq!["//"@, "#"@], seq![pair_of("/*"@, "*/"@)]),
        lang_of("Kotlin"@, seq!["kt"@, "kts"@], seq!["//"@], seq![pair_of("/*"@, "*/"@)]),
        lang_of("Swift"@, seq!["swift"@], seq!["//"@], seq![pair_of("/*"@, "*/"@)]),
        lang_of("Scala"@, seq!["scala"@], seq!["//"@], seq![pair_of("/*"@, "*/"@)]),
        lang_of("Elixir"@, seq!["ex"@, "exs"@], seq!["#"@], Seq::empty()),
        lang_of("Erlang"@, seq!["erl"@, "hrl"@], seq!["%"@], Seq::empty()),
        lang_of("Haskell"@, seq!["hs"@, "lhs"@], seq!["--"@], seq![pair_of("{-"@, "-}"@)]),
        lang_of("Lua"@, seq!["lua"@], seq!["--"@], seq![pair_of("--[["@, "]]"@)]),
        lang_of("Perl"@, seq!["pl"@, "pm"@], seq!["#"@], seq![pair_of("=pod"@, "=cut"@)]),
        lang_of("R"@, seq!["r"@, "R"@], seq!["#"@], Seq::empty()),
        lang_of("SQL"@, seq!["sql"@], seq!["--"@], seq![pair_of("/*"@, "*/"@)]),
        lang_of("TOML"@, seq!["toml"@], seq!["#"@], Seq::empty()),
        lang_of("INI"@, seq!["ini"@, "cfg"@], seq![";"@, "#"@], Seq::empty()),
        lang_of("Vim Script"@, seq!["vim"@], seq!["\""@], Seq::empty()),
    ]
}

/// The table of supported languages, built once at startup: exactly
/// `the_table`.
#[verifier::rlimit(100)]
pub fn languages() -> (r: Vec<LanguageInfo>)
    ensures
        r@.len() == 33,
        r@.map_values(|l: LanguageInfo| l@) == the_table(),
{
    let mut v: Vec<LanguageInfo> = Vec::new();
    v.push(
        LanguageInfo::new(
            "JavaScript",
            vec![owned("js"), owned("jsx"), owned("mjs"), owned("cjs")],
            vec![owned("//")],
            vec![CommentPair::new("/*", "*/")],
        ),
    );
    v.push(
        LanguageInfo::new(
            "TypeScript",
            vec![owned("ts"), owned("tsx")],
            vec![owned("//")],
            vec![CommentPair::new("/*", "*/")],
        ),
    );
    v.push(
        LanguageInfo::new(
            "Python",
            vec![owned("py"), owned("pyw")],
            vec![owned("#")],
            vec![CommentPair::new("\"\"\"", "\"\"\""), CommentPair::new("'''", "'''")],
        ),
    );
    v.push(
        LanguageInfo::new(
            "Rust",
            vec![owned("rs")],
            vec![owned("//"), owned("///"), owned("//!")],
            vec![CommentPair::new("/*", "*/")],
        ),
    );
    v.push(
        LanguageInfo::new(
            "Go",
            vec![owned("go")],
            vec![owned("//")],
            vec![CommentPair::new("/*", "*/")],
        ),
    );
    v.push(
        LanguageInfo::new(
            "Java",
            vec![owned("java")],
            vec![owned("//")],
            vec![CommentPair::new("/*", "*/")],
        ),
    );
    v.push(
        LanguageInfo::new(
            "C",
            vec![owned("c"), owned("h")],
            vec![owned("//")],
            vec![CommentPair::new("/*", "*/")],
        ),
    );
    v.push(
        LanguageInfo::new(
            "C++",
            vec![
                owned("cpp"),
                owned("cc"),
                owned("cxx"),
                owned("hpp"),
                owned("hxx"),
                owned("hh"),
            ],
            vec![owned("//")],
            vec![CommentPair::new("/*", "*/")],
        ),
    );
    v.push(
        LanguageInfo::new(
            "C#",
            vec![owned("cs")],
            vec![owned("//")],
            vec![CommentPair::new("/*", "*/")],
        ),
    );
    v.push(
        LanguageInfo::new(
            "Ruby",
            vec![owned("rb")],
            vec![owned("#")],
            vec![CommentPair::new("=begin", "=end")],
        ),
    );
    v.push(
        LanguageInfo::new(
            "Shell",
            vec![owned("sh"), owned("bash"), owned("zsh")],
            vec![owned("#")],
            vec![],
        ),
    );
    v.push(
        LanguageInfo::new(
            "HTML",
            vec![owned("html"), owned("htm")],
            vec![],
            vec![CommentPair::new("<!--", "-->")],
        ),
    );
    v.push(
        LanguageInfo::new(
            "CSS",
            vec![owned("css")],
            vec![],
            vec![CommentPair::new("/*", "*/")],
        ),
    );
    v.push(
        LanguageInfo::new(
            "SCSS",
            vec![owned("scss")],
            vec![owned("//")],
            vec![CommentPair::new("/*", "*/")],
        ),
    );
    v.push(
        LanguageInfo::new(
            "Sass",
            vec![owned("sass")],
            vec![owned("//")],
            vec![CommentPair::new("/*", "*/")],
        ),
    );
    v.push(
        LanguageInfo::new(
            "Markdown",
            vec![owned("md"), owned("markdown")],
            vec![],
            vec![CommentPair::new("<!--", "-->")],
        ),
    );
    v.push(LanguageInfo::new("JSON", vec![owned("json")], vec![], vec![]));
    v.push(
        LanguageInfo::new(
            "YAML",
            vec![owned("yaml"), owned("yml")],
            vec![owned("#")],
            vec![],
        ),
    );
    v.push(
        LanguageInfo::new(
            "XML",
            vec![owned("xml")],
            vec![],
            vec![CommentPair::new("<!--", "-->")],
        ),
    );
    v.push(
        LanguageInfo::new(
            "PHP",
            vec![owned("php")],
            vec![owned("//"), owned("#")],
            vec![CommentPair::new("/*", "*/")],
        ),
    );
    v.push(
        LanguageInfo::new(
            "Kotlin",
            vec![owned("kt"), owned("kts")],
            vec![owned("//")],
            vec![CommentPair::new("/*", "*/")],
        ),
    );
    v.push(
        LanguageInfo::new(
            "Swift",
            vec![owned("swift")],
            vec![owned("//")],
            vec![CommentPair::new("/*", "*/")],
        ),
    );
    v.push(
        LanguageInfo::new(
            "Scala",
            vec![owned("scala")],
            vec![owned("//")],
            vec![CommentPair::new("/*", "*/")],
        ),
    );
    v.push(
        LanguageInfo::new(
            "Elixir",
            vec![owned("ex"), owned("exs")],
            vec![owned("#")],
            vec![],
        ),
    );
    v.push(
        LanguageInfo::new(
            "Erlang",
            vec![owned("erl"), owned("hrl")],
            vec![owned("%")],
            vec![],
        ),
    );
    v.push(
        LanguageInfo::new(
            "Haskell",
            vec![owned("hs"), owned("lhs")],
            vec![owned("--")],
            vec![CommentPair::new("{-", "-}")],
        ),
    );
    v.push(
        LanguageInfo::new(
            "Lua",
            vec![owned("lua")],
            vec![owned("--")],
            vec![CommentPair::new("--[[", "]]")],
        ),
    );
    v.push(
        LanguageInfo::new(
            "Perl",
            vec![owned("pl"), owned("pm")],
            vec![owned("#")],
            vec![CommentPair::new("=pod", "=cut")],
        ),
    );
    v.push(
        LanguageInfo::new(
            "R",
            vec![owned("r"), owned("R")],
            vec![owned("#")],
            vec![],
        ),
    );
    v.push(
        LanguageInfo::new(
            "SQL",
            vec![owned("sql")],
            vec![owned("--")],
            vec![CommentPair::new("/*", "*/")],
        ),
    );
    v.push(LanguageInfo::new("TOML", vec![owned("toml")], vec![owned("#")], vec![]));
    v.push(
        LanguageInfo::new(
            "INI",
            vec![owned("ini"), owned("cfg")],
            vec![owned(";"), owned("#")],
            vec![],
        ),
    );
    v.push(
        LanguageInfo::new(
            "Vim Script",
            vec![owned("vim")],
            vec![owned("\"")],
            vec![],
        ),
    );
    proof {
        let t = the_table();
        let m = v@.map_values(|l: LanguageInfo| l@);
        assert(m[0] =~~= t[0]);
        assert(m[1] =~~= t[1]);
        assert(m[2] =~~= t[2]);
        assert(m[3] =~~= t[3]);
        assert(m[4] =~~= t[4]);
        assert(m[5] =~~= t[5]);
        assert(m[6] =~~= t[6]);
        assert(m[7] =~~= t[7]);
        assert(m[8] =~~= t[8]);
        assert(m[9] =~~= t[9]);
        assert(m[10] =~~= t[10]);
        assert(m[11] =~~= t[11]);
        assert(m[12] =~~= t[12]);
        assert(m[13] =~~= t[13]);
        assert(m[14] =~~= t[14]);
        assert(m[15] =~~= t[15]);
        assert(m[16] =~~= t[16]);
        assert(m[17] =~~= t[17]);
        assert(m[18] =~~= t[18]);
        assert(m[19] =~~= t[19]);
        assert(m[20] =~~= t[20]);
        assert(m[21] =~~= t[21]);
        assert(m[22] =~~= t[22]);
        assert(m[23] =~~= t[23]);
        assert(m[24] =~~= t[24]);
        assert(m[25] =~~= t[25]);
        assert(m[26] =~~= t[26]);
        assert(m[27] =~~= t[27]);
        assert(m[28] =~~= t[28]);
        assert(m[29] =~~= t[29]);
        assert(m[30] =~~= t[30]);
        assert(m[31] =~~= t[31]);
        assert(m[32] =~~= t[32]);
        assert(m =~~= t);
    }
    v
}

/// The last position of `c` in `s`.
pub open spec fn rfind(s: Seq<char>, c: char) -> Option<int>
    decreases s.len(),
{
    if s.len() == 0 {
        None
    } else if s.last() == c {
        Some(s.len() - 1)
    } else {
        rfind(s.drop_last(), c)
    }
}

/// The part of a path after its last separator.
pub open spec fn file_name_of(path: Seq<char>) -> Seq<char> {
    match rfind(path, '/') {
        Some(i) => path.skip(i + 1),
        None => path,
    }
}

/// The extension of a path: what follows the last dot of the file name,
/// none when the file name has no dot or only a leading one.
pub open spec fn extension_of(path: Seq<char>) -> Option<Seq<char>> {
    let f = file_name_of(path);
    match rfind(f, '.') {
        Some(i) => if i > 0 {
            Some(f.skip(i + 1))
        } else {
            None
        },
        None => None,
    }
}

/// The language registers extension `e`.
pub open spec fn lang_has_ext(l: LangView, e: Seq<char>) -> bool {
    exists|k: int| 0 <= k < l.extensions.len() && l.extensions[k] == e
}

/// The first language at or after `k` that registers extension `e`.
pub open spec fn detect_from(langs: Seq<LangView>, e: Seq<char>, k: int) -> Option<int>
    decreases langs.len() - k + 1,
{
    if k < 0 || k >= langs.len() {
        None
    } else if lang_has_ext(langs[k], e) {
        Some(k)
    } else {
        detect_from(langs, e, k + 1)
    }
}

/// The index of the language a path maps to: the first language that
/// registers the path's extension, lowercased.
pub open spec fn detect_spec(langs: Seq<LangView>, path: Seq<char>) -> Option<int> {
    match extension_of(path) {
        Some(e) => detect_from(langs, to_lower(e), 0),
        None => None,
    }
}

/// Executable search for the last position of `c` in `s`.
pub fn str_rfind(s: &str, c: char) -> (r: Option<usize>)
    ensures
        match r {
            Some(i) => rfind(s@, c) == Some(i as int) && i < s@.len(),
            None => rfind(s@, c) is None,
        },
{
    let n = s.unicode_len();
    proof {
        assert(s@.take(n as int) =~= s@);
    }
    let mut i: usize = n;
    while i > 0
        invariant
            i <= n,
            n == s@.len(),
            rfind(s@, c) == rfind(s@.take(i as int), c),
        decreases i,
    {
        if s.get_char(i - 1) == c {
            proof {
                assert(s@.take(i as int).last() == s@[i - 1]);
            }
            return Some(i - 1);
        }
        proof {
            assert(s@.take(i as int).last() == s@[i - 1]);
            assert(s@.take(i as int).drop_last() =~= s@.take(i as int - 1));
        }
        i = i - 1;
    }
    None
}

/// Language detector that maps file extensions to languages.
pub struct LanguageDetector {
    pub languages: Vec<LanguageInfo>,
}

impl View for LanguageDetector {
    type V = Seq<LangView>;

    open spec fn view(&self) -> Seq<LangView> {
        self.languages@.map_values(|l: LanguageInfo| l@)
    }
}

impl LanguageDetector {
    /// Create a new LanguageDetector with all supported languages.
    pub fn new() -> (r: LanguageDetector)
        ensures
            r@ == the_table(),
    {
        LanguageDetector { languages: languages() }
    }

    /// Detect the language of a file based on its path.
    ///
    /// Returns None if the extension is not recognized.
    pub fn detect_from_path(&self, path: &str) -> (r: Option<&LanguageInfo>)
        ensures
            match r {
                Some(l) => {
                    &&& detect_spec(self@, path@) is Some
                    &&& l@ == self@[detect_spec(self@, path@)->0]
                },
                None => detect_spec(self@, path@) is None,
            },
    {
        let n = s_len(path);
        let start: usize = match str_rfind(path, '/') {
            Some(i) => i + 1,
            None => 0,
        };
        let fname = path.substring_char(start, n);
        proof {
            assert(fname@ =~= file_name_of(path@));
        }
        let fl = s_len(fname);
        let dot = str_rfind(fname, '.');
        let ext: &str = match dot {
            Some(i) => {
                if i == 0 {
                    return None;
                }
                fname.substring_char(i + 1, fl)
            },
            None => {
                return None;
            },
        };
        proof {
            assert(extension_of(path@) == Some(ext@)) by {
                let i = dot->0 as int;
                assert(fname@.skip(i + 1) =~= ext@);
            }
        }
        let mut k: usize = 0;
        let nl = self.languages.len();
        while k < nl
        invariant
            k <= nl,
            nl == self.languages@.len(),
            self@.len() == nl,
            extension_of(path@) == Some(ext@),
            detect_from(self@, to_lower(ext@), 0) == detect_from(self@, to_lower(ext@), k as int),
        decreases nl - k,
        {
            let lang = &self.languages[k];
            let ne = lang.extensions.len();
            let mut j: usize = 0;
            while j < ne
                invariant
                    j <= ne,
                    k < nl,
                    nl == self.languages@.len(),
                    self@.len() == nl,
                    lang == self.languages@[k as int],
                    ne == lang.extensions@.len(),
                    extension_of(path@) == Some(ext@),
                    detect_from(self@, to_lower(ext@), 0) == detect_from(
                        self@,
                        to_lower(ext@),
                        k as int,
                    ),
                    forall|jj: int| 0 <= jj < j ==> to_lower(ext@) != lang.extensions@[jj]@,
                decreases ne - j,
            {
                if lower_eq(ext, lang.extensions[j].as_str()) {
                    proof {
                        assert(self@[k as int] == lang@);
                        assert(lang@.extensions[j as int] == lang.extensions@[j as int]@);
                        assert(lang_has_ext(self@[k as int], to_lower(ext@)));
                        assert(detect_from(self@, to_lower(ext@), k as int) == Some(k as int));
                        assert(detect_spec(self@, path@) == Some(k as int));
                    }
                    return Some(lang);
                }
                j = j + 1;
            }
            proof {
                assert(self@[k as int] == lang@);
                assert forall|kk: int| 0 <= kk < lang@.extensions.len() implies lang@.extensions[kk]
                    != to_lower(ext@) by {
                    assert(lang@.extensions[kk] == lang.extensions@[kk]@);
                }
                assert(!lang_has_ext(self@[k as int], to_lower(ext@)));
            }
            k = k + 1;
        }
        None
    }
}

impl Default for LanguageDetector {
    fn default() -> (r: Self)
        ensures
            r@ == the_table(),
    {
        LanguageDetector::new()
    }
}

/// The character length of a string.
fn s_len(s: &str) -> (n: usize)
    ensures
        n == s@.len(),
{
    s.unicode_len()
}

} // verus!
