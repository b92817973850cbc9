//! Line classification engine.
//!
//! Classifies each line of a file as blank, comment or code under a
//! language's comment syntax, carrying the one piece of state that can
//! cross a line boundary: an open multi-line comment and its delimiter
//! pair. The whole transition is specified by `classify_spec`.

use vstd::prelude::*;
use vstd::string::StrSliceExecFns;
use vstd::string::StringExecFns;
use crate::language::{CommentPair, PairView, LanguageInfo, LangView};
use crate::stats::{FileStats, StatsView};
use crate::text::{
    trim, starts_with, find, is_ws, str_trim, str_is_blank, str_starts_with, str_find,
    lemma_find_from_some, lemma_trim_empty_iff_all_ws, lemma_trim_idempotent,
};

verus! {

/// Type of a line in source code.
#[derive(Debug, Clone, Copy, PartialEq, Eq, Structural)]
pub enum LineType {
    /// Line contains only whitespace.
    Blank,
    /// Line contains only comments.
    Comment,
    /// Line contains code (may also contain comments).
    Code,
}

/// Mathematical value of a `ClassifierState`.
pub struct StateView {
    pub in_multi: bool,
    pub delim: Option<PairView>,
}

/// The state a fresh scan starts in: no comment open.
pub open spec fn initial_state() -> StateView {
    StateView { in_multi: false, delim: None }
}

/// State tracker for multi-line comment processing.
#[derive(Debug)]
pub struct ClassifierState {
    /// Whether we're currently inside a multi-line comment.
    pub in_multi_line_comment: bool,
    /// The delimiter pair we're currently inside (if any).
    pub current_delimiter: Option<CommentPair>,
}

impl View for ClassifierState {
    type V = StateView;

    open spec fn view(&self) -> StateView {
        StateView {
            in_multi: self.in_multi_line_comment,
            delim: match self.current_delimiter {
                Some(p) => Some(p@),
                None => None,
            },
        }
    }
}

impl ClassifierState {
    /// Create a new ClassifierState.
    pub fn new() -> (r: ClassifierState)
        ensures
            r@ == initial_state(),
    {
        ClassifierState { in_multi_line_comment: false, current_delimiter: None }
    }

    /// Reset the state to initial values.
    pub fn reset(&mut self)
        ensures
            final(self)@ == initial_state(),
    {
        self.in_multi_line_comment = false;
        self.current_delimiter = None;
    }
}

impl Default for ClassifierState {
    fn default() -> (r: Self)
        ensures
            r@ == initial_state(),
    {
        ClassifierState::new()
    }
}

/// The two characters that open a shebang line.
pub open spec fn shebang() -> Seq<char> {
    seq!['#', '!']
}

/// Some single-line marker of the language starts the trimmed line.
pub open spec fn has_single_marker(singles: Seq<Seq<char>>, t: Seq<char>) -> bool {
    exists|k: int| 0 <= k < singles.len() && starts_with(t, singles[k])
}

/// The earliest multi-line start delimiter at or after pair `k`:
/// the position where it occurs and the index of its pair, preferring
/// the smaller position, and on ties the pair registered first.
pub open spec fn best_start_from(pairs: Seq<PairView>, line: Seq<char>, k: int) -> Option<
    (int, int),
>
    decreases pairs.len() - k + 1,
{
    if k < 0 || k >= pairs.len() {
        None
    } else {
        let rest = best_start_from(pairs, line, k + 1);
        match find(line, pairs[k].start) {
            None => rest,
            Some(p) => match rest {
                None => Some((p, k)),
                Some(pr) => if p <= pr.0 {
                    Some((p, k))
                } else {
                    Some(pr)
                },
            },
        }
    }
}

/// The earliest multi-line start delimiter on the line over all pairs.
pub open spec fn best_start(pairs: Seq<PairView>, line: Seq<char>) -> Option<(int, int)> {
    best_start_from(pairs, line, 0)
}

/// A best-start result is a real occurrence of that pair's start.
pub proof fn lemma_best_start_props(pairs: Seq<PairView>, line: Seq<char>, k: int)
    requires
        best_start_from(pairs, line, k) is Some,
    ensures
        ({
            let pk = best_start_from(pairs, line, k)->0;
            &&& k <= pk.1 < pairs.len()
            &&& find(line, pairs[pk.1].start) == Some(pk.0)
        }),
    decreases pairs.len() - k + 1,
{
    if k < 0 || k >= pairs.len() {
    } else {
        if best_start_from(pairs, line, k + 1) is Some {
            lemma_best_start_props(pairs, line, k + 1);
        }
    }
}

/// What a line does when a multi-line comment is open and a start
/// delimiter of pair `k` was found at `s_pos`: close on the same line,
/// or open a span for later lines.
pub open spec fn classify_multi(
    lang: LangView,
    st: StateView,
    line: Seq<char>,
    s_pos: int,
    k: int,
) -> (LineType, StateView) {
    let pair = lang.pairs[k];
    let rest = line.skip(s_pos + pair.start.len());
    match find(rest, pair.end) {
        Some(r) => {
            let end_pos = s_pos + pair.start.len() + r + pair.end.len();
            if trim(line.take(s_pos)).len() == 0 && trim(line.skip(end_pos)).len() == 0 {
                (LineType::Comment, st)
            } else {
                (LineType::Code, st)
            }
        },
        None => {
            let opened = StateView { in_multi: true, delim: Some(pair) };
            if trim(line.take(s_pos)).len() == 0 {
                (LineType::Comment, opened)
            } else {
                (LineType::Code, opened)
            }
        },
    }
}

/// The classification of one line and the state it leaves behind.
///
/// In order: a line that trims to nothing is blank and leaves the state
/// alone; a trimmed line opening with a shebang is code; inside an open
/// multi-line comment the line is comment unless text follows the end
/// delimiter; a single-line marker at the start of the trimmed line
/// makes a comment; otherwise the earliest multi-line start delimiter
/// decides, and a line without any is code.
pub open spec fn classify_spec(lang: LangView, st: StateView, line: Seq<char>) -> (
    LineType,
    StateView,
) {
    let t = trim(line);
    if t.len() == 0 {
        (LineType::Blank, st)
    } else if starts_with(t, shebang()) {
        (LineType::Code, st)
    } else if st.in_multi && st.delim is Some {
        let d = st.delim->0;
        match find(line, d.end) {
            Some(e) => {
                let closed = StateView { in_multi: false, delim: None };
                if trim(line.skip(e + d.end.len())).len() == 0 {
                    (LineType::Comment, closed)
                } else {
                    (LineType::Code, closed)
                }
            },
            None => (LineType::Comment, st),
        }
    } else if has_single_marker(lang.singles, t) {
        (LineType::Comment, st)
    } else {
        match best_start(lang.pairs, line) {
            None => (LineType::Code, st),
            Some(pk) => classify_multi(lang, st, line, pk.0, pk.1),
        }
    }
}

/// Line classifier that determines line types based on language rules.
pub struct LineClassifier<'a> {
    language: &'a LanguageInfo,
}

impl<'a> View for LineClassifier<'a> {
    type V = LangView;

    closed spec fn view(&self) -> LangView {
        self.language@
    }
}

impl<'a> LineClassifier<'a> {
    /// Create a new LineClassifier for the given language.
    pub fn new(language: &'a LanguageInfo) -> (r: Self)
        ensures
            r@ == language@,
    {
        LineClassifier { language }
    }

    /// Trim leading and trailing whitespace from a line.
    fn trim_line(line: &str) -> (r: &str)
        ensures
            r@ == trim(line@),
    {
        str_trim(line)
    }

    /// Check if a line is blank (only whitespace).
    fn is_blank(line: &str) -> (r: bool)
        ensures
            r == (trim(line@).len() == 0),
    {
        str_is_blank(line)
    }

    /// Check if a line starts with a single-line comment.
    fn starts_with_single_comment(&self, line: &str) -> (r: bool)
        ensures
            r == has_single_marker(self@.singles, trim(line@)),
    {
        let trimmed = str_trim(line);
        let n = self.language.single_line_comments.len();
        let mut k: usize = 0;
        while k < n
            invariant
                k <= n,
                n == self.language.single_line_comments@.len(),
                trimmed@ == trim(line@),
                self@.singles.len() == n,
                forall|j: int| 0 <= j < k ==> !starts_with(trim(line@), self@.singles[j]),
            decreases n - k,
        {
            if str_starts_with(trimmed, self.language.single_line_comments[k].as_str()) {
                proof {
                    assert(self@.singles[k as int] == self.language.single_line_comments@[
                        k as int
                    ]@);
                }
                return true;
            }
            proof {
                assert(self@.singles[k as int] == self.language.single_line_comments@[k as int]@);
            }
            k = k + 1;
        }
        false
    }

    /// Find the earliest multi-line comment start delimiter in a line,
    /// and the index of its pair.
    fn contains_multi_line_start(&self, line: &str) -> (r: Option<(usize, usize)>)
        ensures
            match r {
                Some(pk) => {
                    &&& best_start(self@.pairs, line@) == Some((pk.0 as int, pk.1 as int))
                    &&& pk.1 < self@.pairs.len()
                    &&& find(line@, self@.pairs[pk.1 as int].start) == Some(pk.0 as int)
                },
                None => best_start(self@.pairs, line@) is None,
            },
    {
        let n = self.language.multi_line_comments.len();
        let mut best: Option<(usize, usize)> = None;
        let mut k: usize = n;
        while k > 0
            invariant
                k <= n,
                n == self.language.multi_line_comments@.len(),
                self@.pairs.len() == n,
                match best {
                    Some(pk) => best_start_from(self@.pairs, line@, k as int) == Some(
                        (pk.0 as int, pk.1 as int),
                    ),
                    None => best_start_from(self@.pairs, line@, k as int) is None,
                },
            decreases k,
        {
            k = k - 1;
            let pair = &self.language.multi_line_comments[k];
            proof {
                assert(self@.pairs[k as int] == self.language.multi_line_comments@[k as int]@);
            }
            match str_find(line, pair.start.as_str()) {
                Some(p) => {
                    best = match best {
                        Some(pk) => if p <= pk.0 {
                            Some((p, k))
                        } else {
                            Some(pk)
                        },
                        None => Some((p, k)),
                    };
                },
                None => {},
            }
        }
        proof {
            if best is Some {
                lemma_best_start_props(self@.pairs, line@, 0);
            }
        }
        best
    }

    /// Find the position just after a multi-line comment end delimiter
    /// in a line.
    fn contains_multi_line_end(&self, line: &str, delimiter: &CommentPair) -> (r: Option<usize>)
        ensures
            match r {
                Some(ep) => {
                    &&& find(line@, delimiter@.end) is Some
                    &&& ep == find(line@, delimiter@.end)->0 + delimiter@.end.len()
                    &&& ep <= line@.len()
                },
                None => find(line@, delimiter@.end) is None,
            },
    {
        let n = line.unicode_len();
        match str_find(line, delimiter.end.as_str()) {
            Some(e) => {
                proof {
                    lemma_find_from_some(line@, delimiter@.end, 0, e as int);
                }
                let el = delimiter.end.as_str().unicode_len();
                Some(e + el)
            },
            None => None,
        }
    }

    /// Classify a single line of code.
    ///
    /// This method updates the state and returns the line type.
    pub fn classify_line(&self, line: &str, state: &mut ClassifierState) -> (t: LineType)
        ensures
            ({
                let r = classify_spec(self@, old(state)@, line@);
                t == r.0 && final(state)@ == r.1
            }),
    {
        let n = line.unicode_len();
        // Check for blank line first
        if Self::is_blank(line) {
            return LineType::Blank;
        }
        let trimmed = Self::trim_line(line);

        // Handle shebang lines as code
        proof {
            reveal_strlit("#!");
            assert("#!"@ =~= shebang());
        }
        if str_starts_with(trimmed, "#!") {
            return LineType::Code;
        }
        // If we're already in a multi-line comment
        if state.in_multi_line_comment {
            let mut has_delim = false;
            let mut found: Option<usize> = None;
            match &state.current_delimiter {
                Some(delimiter) => {
                    has_delim = true;
                    found = self.contains_multi_line_end(line, delimiter);
                },
                None => {},
            }
            if has_delim {
                match found {
                    Some(end_pos) => {
                        // Comment ends on this line
                        state.in_multi_line_comment = false;
                        state.current_delimiter = None;
                        let after_comment = line.substring_char(end_pos, n);
                        proof {
                            assert(after_comment@ =~= line@.skip(end_pos as int));
                        }
                        if !Self::is_blank(after_comment) {
                            // There's code after the comment
                            return LineType::Code;
                        } else {
                            return LineType::Comment;
                        }
                    },
                    None => {
                        // Still in comment, no end delimiter on this line
                        return LineType::Comment;
                    },
                }
            }
        }
        // Not in multi-line comment
        // Check for single-line comment
        proof {
            lemma_trim_idempotent(line@);
        }
        if self.starts_with_single_comment(trimmed) {
            return LineType::Comment;
        }
        // Check for multi-line comment start
        match self.contains_multi_line_start(line) {
            Some((start_pos, k)) => {
                let pair = &self.language.multi_line_comments[k];
                proof {
                    assert(self@.pairs[k as int] == self.language.multi_line_comments@[k as int]@);
                    lemma_find_from_some(line@, self@.pairs[k as int].start, 0, start_pos as int);
                }
                let sl = pair.start.as_str().unicode_len();
                let after_start = line.substring_char(start_pos + sl, n);
                proof {
                    assert(after_start@ =~= line@.skip(start_pos + sl));
                }
                match str_find(after_start, pair.end.as_str()) {
                    Some(rel) => {
                        // Multi-line comment starts and ends on same line
                        proof {
                            lemma_find_from_some(after_start@, pair@.end, 0, rel as int);
                        }
                        let el = pair.end.as_str().unicode_len();
                        let end_pos = start_pos + sl + rel + el;
                        // Check if there's code before or after
                        let before_comment = line.substring_char(0, start_pos);
                        let after_comment = line.substring_char(end_pos, n);
                        proof {
                            assert(before_comment@ =~= line@.take(start_pos as int));
                            assert(after_comment@ =~= line@.skip(end_pos as int));
                        }
                        if !Self::is_blank(before_comment) || !Self::is_blank(after_comment) {
                            LineType::Code
                        } else {
                            LineType::Comment
                        }
                    },
                    None => {
                        // Multi-line comment starts but doesn't end
                        state.in_multi_line_comment = true;
                        state.current_delimiter = Some(
                            CommentPair { start: pair.start.clone(), end: pair.end.clone() },
                        );
                        // Check if there's code before the comment start
                        let before_comment = line.substring_char(0, start_pos);
                        proof {
                            assert(before_comment@ =~= line@.take(start_pos as int));
                        }
                        if !Self::is_blank(before_comment) {
                            LineType::Code
                        } else {
                            LineType::Comment
                        }
                    },
                }
            },
            None => {
                // No comments found, it's code
                LineType::Code
            },
        }
    }
}

/// One counter bumped by one, according to the line's type.
pub open spec fn bump(s: StatsView, t: LineType) -> StatsView {
    match t {
        LineType::Blank => StatsView { blank: s.blank + 1, ..s },
        LineType::Comment => StatsView { comment: s.comment + 1, ..s },
        LineType::Code => StatsView { code: s.code + 1, ..s },
    }
}

/// The counters and final state after classifying every line in order,
/// starting from a fresh state.
pub open spec fn run_classifier(lang: LangView, lines: Seq<Seq<char>>) -> (StatsView, StateView)
    decreases lines.len(),
{
    if lines.len() == 0 {
        (StatsView::zero(), initial_state())
    } else {
        let prev = run_classifier(lang, lines.drop_last());
        let step = classify_spec(lang, prev.1, lines.last());
        (bump(prev.0, step.0), step.1)
    }
}

/// The counters of `run_classifier` add up to the number of lines.
pub proof fn lemma_run_classifier_total(lang: LangView, lines: Seq<Seq<char>>)
    ensures
        run_classifier(lang, lines).0.total() == lines.len(),
    decreases lines.len(),
{
    if lines.len() > 0 {
        lemma_run_classifier_total(lang, lines.drop_last());
    }
}

/// Classify all lines in a file and return statistics.
pub fn classify_file(lines: &Vec<String>, language: &LanguageInfo) -> (r: FileStats)
    ensures
        r@ == run_classifier(language@, lines@.map_values(|l: String| l@)).0,
{
    let ghost linesv: Seq<Seq<char>> = lines@.map_values(|l: String| l@);
    let classifier = LineClassifier::new(language);
    let mut state = ClassifierState::new();
    let mut stats = FileStats::new();
    let n = lines.len();
    proof {
        assert(linesv.take(0) =~= Seq::<Seq<char>>::empty());
    }
    let mut i: usize = 0;
    while i < n
        invariant
            i <= n,
            n == lines@.len(),
            linesv == lines@.map_values(|l: String| l@),
            classifier@ == language@,
            (stats@, state@) == run_classifier(language@, linesv.take(i as int)),
            stats.blank + stats.comment + stats.code == i,
        decreases n - i,
    {
        let line = &lines[i];
        let t = classifier.classify_line(line.as_str(), &mut state);
        proof {
            assert(linesv.take(i + 1).drop_last() =~= linesv.take(i as int));
            assert(linesv.take(i + 1).last() == linesv[i as int]);
            assert(linesv[i as int] == lines@[i as int]@);
        }
        match t {
            LineType::Blank => {
                stats.blank = stats.blank + 1;
            },
            LineType::Comment => {
                stats.comment = stats.comment + 1;
            },
            LineType::Code => {
                stats.code = stats.code + 1;
            },
        }
        i = i + 1;
    }
    proof {
        assert(linesv.take(n as int) =~= linesv);
    }
    stats
}

/// A line of nothing but whitespace is blank under every language and
/// every state, and leaves the state unchanged.
pub proof fn lemma_blank_line(lang: LangView, st: StateView, line: Seq<char>)
    requires
        forall|j: int| 0 <= j < line.len() ==> is_ws(line[j]),
    ensures
        classify_spec(lang, st, line) == (LineType::Blank, st),
{
    lemma_trim_empty_iff_all_ws(line);
}

/// A line and its trimmed form agree on the blank check: one classifies
/// as blank exactly when the other does.
pub proof fn lemma_trim_agrees_on_blank(lang: LangView, st: StateView, line: Seq<char>)
    ensures
        (classify_spec(lang, st, line).0 == LineType::Blank) <==> (classify_spec(
            lang,
            st,
            trim(line),
        ).0 == LineType::Blank),
{
    lemma_trim_idempotent(line);
}

/// A trimmed line that opens with a shebang is code under every
/// language and every state, and leaves the state unchanged.
pub proof fn lemma_shebang_is_code(lang: LangView, st: StateView, line: Seq<char>)
    requires
        starts_with(trim(line), shebang()),
    ensures
        classify_spec(lang, st, line) == (LineType::Code, st),
{
}

} // verus!
