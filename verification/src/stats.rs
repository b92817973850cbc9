//! Statistics data structures and aggregation.
//!
//! Counters for blank, comment and code lines, per file, per language
//! and for a whole project, with an associative, commutative merge.

use vstd::prelude::*;
use vstd::string::StringExecFns;
use crate::text::{lex_lt, str_lt, str_eq, lemma_lex_irrefl, lemma_lex_trans, lemma_lex_connex};

verus! {

/// Unbounded mathematical counterpart of `FileStats`.
pub struct StatsView {
    pub blank: int,
    pub comment: int,
    pub code: int,
}

impl StatsView {
    /// All three counters zero.
    pub open spec fn zero() -> StatsView {
        StatsView { blank: 0, comment: 0, code: 0 }
    }

    /// Counter-wise sum.
    pub open spec fn sum(self, other: StatsView) -> StatsView {
        StatsView {
            blank: self.blank + other.blank,
            comment: self.comment + other.comment,
            code: self.code + other.code,
        }
    }

    /// Sum of the three counters.
    pub open spec fn total(self) -> int {
        self.blank + self.comment + self.code
    }

    /// Every counter fits in a machine word.
    pub open spec fn fits(self) -> bool {
        &&& self.blank <= usize::MAX
        &&& self.comment <= usize::MAX
        &&& self.code <= usize::MAX
    }
}

/// Statistics for a single file or aggregated files.
#[derive(Debug, Clone, Copy, PartialEq, Eq, Structural)]
pub struct FileStats {
    /// Number of blank lines.
    pub blank: usize,
    /// Number of comment lines.
    pub comment: usize,
    /// Number of code lines.
    pub code: usize,
}

impl View for FileStats {
    type V = StatsView;

    open spec fn view(&self) -> StatsView {
        StatsView { blank: self.blank as int, comment: self.comment as int, code: self.code as int }
    }
}

impl FileStats {
    /// Create a new FileStats with all counts set to zero.
    pub fn new() -> (r: FileStats)
        ensures
            r@ == StatsView::zero(),
    {
        FileStats { blank: 0, comment: 0, code: 0 }
    }

    /// Calculate the total number of lines.
    pub fn total(&self) -> (t: usize)
        requires
            self@.total() <= usize::MAX,
        ensures
            t == self@.total(),
    {
        self.blank + self.comment + self.code
    }

    /// Counter-wise sum of two statistics.
    pub fn add(self, other: FileStats) -> (r: FileStats)
        requires
            self@.sum(other@).fits(),
        ensures
            r@ == self@.sum(other@),
    {
        FileStats {
            blank: self.blank + other.blank,
            comment: self.comment + other.comment,
            code: self.code + other.code,
        }
    }

    /// Add another statistics value into this one.
    pub fn add_assign(&mut self, other: FileStats)
        requires
            old(self)@.sum(other@).fits(),
        ensures
            final(self)@ == old(self)@.sum(other@),
    {
        self.blank = self.blank + other.blank;
        self.comment = self.comment + other.comment;
        self.code = self.code + other.code;
    }
}

impl Default for FileStats {
    fn default() -> (r: Self)
        ensures
            r@ == StatsView::zero(),
    {
        FileStats { blank: 0, comment: 0, code: 0 }
    }
}

/// Mathematical value of a `LanguageStats`.
pub struct LangStatView {
    pub name: Seq<char>,
    pub files: int,
    pub stats: StatsView,
}

/// Statistics for a specific programming language.
#[derive(Debug, Clone)]
pub struct LanguageStats {
    /// Name of the language.
    pub language: String,
    /// Number of files in this language.
    pub files: usize,
    /// Aggregated statistics for all files.
    pub stats: FileStats,
}

impl View for LanguageStats {
    type V = LangStatView;

    open spec fn view(&self) -> LangStatView {
        LangStatView { name: self.language@, files: self.files as int, stats: self.stats@ }
    }
}

/// Language names strictly ascending: sorted, and so each name unique.
pub open spec fn wf_langs(s: Seq<LangStatView>) -> bool {
    forall|i: int, j: int| 0 <= i < j < s.len() ==> lex_lt(s[i].name, s[j].name)
}

/// The map from language name to file count and summed statistics that
/// a sequence of per-language entries represents.
pub open spec fn as_map(s: Seq<LangStatView>) -> Map<Seq<char>, (int, StatsView)>
    decreases s.len(),
{
    if s.len() == 0 {
        Map::empty()
    } else {
        as_map(s.drop_last()).insert(s.last().name, (s.last().files, s.last().stats))
    }
}

/// One group of `files` files with summed statistics `stats` folded
/// into the map under `name`.
pub open spec fn map_add_entry(
    m: Map<Seq<char>, (int, StatsView)>,
    name: Seq<char>,
    files: int,
    stats: StatsView,
) -> Map<Seq<char>, (int, StatsView)> {
    if m.dom().contains(name) {
        m.insert(name, (m[name].0 + files, m[name].1.sum(stats)))
    } else {
        m.insert(name, (files, stats))
    }
}

/// One file's result folded into the map.
pub open spec fn map_add_file(
    m: Map<Seq<char>, (int, StatsView)>,
    name: Seq<char>,
    stats: StatsView,
) -> Map<Seq<char>, (int, StatsView)> {
    map_add_entry(m, name, 1, stats)
}

/// Two per-language maps combined: every language of either side, file
/// counts and statistics summed where both have it.
pub open spec fn merge_maps(
    a: Map<Seq<char>, (int, StatsView)>,
    b: Map<Seq<char>, (int, StatsView)>,
) -> Map<Seq<char>, (int, StatsView)> {
    Map::new(
        |k: Seq<char>| a.dom().contains(k) || b.dom().contains(k),
        |k: Seq<char>|
            if a.dom().contains(k) && b.dom().contains(k) {
                (a[k].0 + b[k].0, a[k].1.sum(b[k].1))
            } else if a.dom().contains(k) {
                a[k]
            } else {
                b[k]
            },
    )
}

/// The map built by folding a list of per-file results, one file at a
/// time, in order.
pub open spec fn reduce_files(files: Seq<(Seq<char>, StatsView)>) -> Map<
    Seq<char>,
    (int, StatsView),
>
    decreases files.len(),
{
    if files.len() == 0 {
        Map::empty()
    } else {
        map_add_file(reduce_files(files.drop_last()), files.last().0, files.last().1)
    }
}

/// The bound under which one more group fits the machine counters.
pub open spec fn can_add_entry(
    m: Map<Seq<char>, (int, StatsView)>,
    name: Seq<char>,
    files: int,
    stats: StatsView,
) -> bool {
    m.dom().contains(name) ==> m[name].0 + files <= usize::MAX && m[name].1.sum(stats).fits()
}

/// The bound under which a whole merge fits the machine counters.
pub open spec fn can_merge(
    a: Map<Seq<char>, (int, StatsView)>,
    b: Map<Seq<char>, (int, StatsView)>,
) -> bool {
    forall|k: Seq<char>|
        a.dom().contains(k) && b.dom().contains(k) ==> a[k].0 + b[k].0 <= usize::MAX && a[
            k
        ].1.sum(b[k].1).fits()
}

/// Merging with the empty map changes nothing.
pub proof fn lemma_merge_empty(a: Map<Seq<char>, (int, StatsView)>)
    ensures
        merge_maps(a, Map::empty()) == a,
{
    assert(merge_maps(a, Map::<Seq<char>, (int, StatsView)>::empty()) =~= a);
}

/// Merging per-language maps is commutative.
pub proof fn lemma_merge_comm(
    a: Map<Seq<char>, (int, StatsView)>,
    b: Map<Seq<char>, (int, StatsView)>,
)
    ensures
        merge_maps(a, b) == merge_maps(b, a),
{
    assert(merge_maps(a, b) =~= merge_maps(b, a));
}

/// Merging per-language maps is associative.
pub proof fn lemma_merge_assoc(
    a: Map<Seq<char>, (int, StatsView)>,
    b: Map<Seq<char>, (int, StatsView)>,
    c: Map<Seq<char>, (int, StatsView)>,
)
    ensures
        merge_maps(merge_maps(a, b), c) == merge_maps(a, merge_maps(b, c)),
{
    assert(merge_maps(merge_maps(a, b), c) =~= merge_maps(a, merge_maps(b, c)));
}

/// Folding a group into the right side of a merge folds it into the
/// merge.
pub proof fn lemma_merge_add_entry(
    a: Map<Seq<char>, (int, StatsView)>,
    b: Map<Seq<char>, (int, StatsView)>,
    name: Seq<char>,
    files: int,
    stats: StatsView,
)
    ensures
        merge_maps(a, map_add_entry(b, name, files, stats)) == map_add_entry(
            merge_maps(a, b),
            name,
            files,
            stats,
        ),
{
    assert(merge_maps(a, map_add_entry(b, name, files, stats)) =~= map_add_entry(
        merge_maps(a, b),
        name,
        files,
        stats,
    ));
}

/// Inserting a fresh key on the right of a merge folds its value in.
pub proof fn lemma_merge_insert_fresh(
    a: Map<Seq<char>, (int, StatsView)>,
    b: Map<Seq<char>, (int, StatsView)>,
    name: Seq<char>,
    v: (int, StatsView),
)
    requires
        !b.dom().contains(name),
    ensures
        merge_maps(a, b.insert(name, v)) == map_add_entry(merge_maps(a, b), name, v.0, v.1),
{
    assert(merge_maps(a, b.insert(name, v)) =~= map_add_entry(merge_maps(a, b), name, v.0, v.1));
}

/// However a list of per-file results is split in two, reducing the
/// parts and merging equals reducing the whole: the fan-in of parallel
/// workers gives the same totals as one sequential pass.
pub proof fn lemma_reduce_partition(
    f1: Seq<(Seq<char>, StatsView)>,
    f2: Seq<(Seq<char>, StatsView)>,
)
    ensures
        reduce_files(f1 + f2) == merge_maps(reduce_files(f1), reduce_files(f2)),
    decreases f2.len(),
{
    if f2.len() == 0 {
        assert(f1 + f2 =~= f1);
        lemma_merge_empty(reduce_files(f1));
    } else {
        lemma_reduce_partition(f1, f2.drop_last());
        assert((f1 + f2).drop_last() =~= f1 + f2.drop_last());
        assert((f1 + f2).last() == f2.last());
        lemma_merge_add_entry(
            reduce_files(f1),
            reduce_files(f2.drop_last()),
            f2.last().0,
            1,
            f2.last().1,
        );
    }
}

/// Sorted entries have pairwise distinct names.
pub proof fn lemma_wf_distinct(s: Seq<LangStatView>)
    requires
        wf_langs(s),
    ensures
        forall|i: int, j: int| 0 <= i < j < s.len() ==> s[i].name != s[j].name,
{
    assert forall|i: int, j: int| 0 <= i < j < s.len() implies s[i].name != s[j].name by {
        lemma_lex_irrefl(s[i].name);
    }
}

/// With distinct names, the map of a sequence holds exactly its
/// entries: each name maps to its own file count and statistics, and
/// nothing else is in the map.
pub proof fn lemma_as_map_props(s: Seq<LangStatView>)
    requires
        forall|i: int, j: int| 0 <= i < j < s.len() ==> s[i].name != s[j].name,
    ensures
        forall|i: int|
            0 <= i < s.len() ==> as_map(s).dom().contains(#[trigger] s[i].name) && as_map(s)[s[
                i
            ].name] == (s[i].files, s[i].stats),
        forall|k: Seq<char>|
            #[trigger] as_map(s).dom().contains(k) ==> exists|i: int|
                0 <= i < s.len() && s[i].name == k,
    decreases s.len(),
{
    if s.len() > 0 {
        let p = s.drop_last();
        lemma_as_map_props(p);
        assert forall|i: int|
            0 <= i < s.len() implies as_map(s).dom().contains(#[trigger] s[i].name) && as_map(s)[s[
            i
        ].name] == (s[i].files, s[i].stats) by {
            if i < s.len() - 1 {
                assert(p[i] == s[i]);
                assert(s[i].name != s.last().name);
            }
        }
        assert forall|k: Seq<char>| #[trigger] as_map(s).dom().contains(k) implies exists|i: int|
            0 <= i < s.len() && s[i].name == k by {
            if k == s.last().name {
                assert(s[s.len() - 1].name == k);
            } else {
                assert(as_map(p).dom().contains(k));
                let i = choose|i: int| 0 <= i < p.len() && p[i].name == k;
                assert(s[i].name == k);
            }
        }
    }
}

/// The sorted form is canonical: two sorted entry sequences with the
/// same map are the same sequence. With this, equality of the
/// per-language maps is equality of whole `ProjectStats` views.
pub proof fn lemma_wf_canonical(a: Seq<LangStatView>, b: Seq<LangStatView>)
    requires
        wf_langs(a),
        wf_langs(b),
        as_map(a) == as_map(b),
    ensures
        a == b,
    decreases a.len(),
{
    lemma_wf_distinct(a);
    lemma_wf_distinct(b);
    lemma_as_map_props(a);
    lemma_as_map_props(b);
    if a.len() == 0 {
        if b.len() > 0 {
            assert(as_map(b).dom().contains(b[b.len() - 1].name));
        }
        assert(a =~= b);
    } else if b.len() == 0 {
        assert(as_map(a).dom().contains(a[a.len() - 1].name));
        assert(a =~= b);
    } else {
        let x = a.last();
        let y = b.last();
        assert(as_map(a).dom().contains(y.name)) by {
            assert(as_map(b).dom().contains(b[b.len() - 1].name));
        }
        assert(as_map(b).dom().contains(x.name)) by {
            assert(as_map(a).dom().contains(a[a.len() - 1].name));
        }
        let i = choose|i: int| 0 <= i < a.len() && a[i].name == y.name;
        let j = choose|j: int| 0 <= j < b.len() && b[j].name == x.name;
        if x.name != y.name {
            assert(i < a.len() - 1);
            assert(lex_lt(a[i].name, a[a.len() - 1].name));
            assert(j < b.len() - 1);
            assert(lex_lt(b[j].name, b[b.len() - 1].name));
            lemma_lex_trans(x.name, y.name, x.name);
            lemma_lex_irrefl(x.name);
        }
        assert(as_map(a)[x.name] == (x.files, x.stats));
        assert(as_map(b)[y.name] == (y.files, y.stats));
        assert(x == y);
        let pa = a.drop_last();
        let pb = b.drop_last();
        assert forall|s: int, t: int| 0 <= s < t < pa.len() implies lex_lt(
            pa[s].name,
            pa[t].name,
        ) by {
            assert(pa[s] == a[s] && pa[t] == a[t]);
        }
        assert forall|s: int, t: int| 0 <= s < t < pb.len() implies lex_lt(
            pb[s].name,
            pb[t].name,
        ) by {
            assert(pb[s] == b[s] && pb[t] == b[t]);
        }
        assert(!as_map(pa).dom().contains(x.name)) by {
            lemma_wf_distinct(pa);
            lemma_as_map_props(pa);
            if as_map(pa).dom().contains(x.name) {
                let s = choose|s: int| 0 <= s < pa.len() && pa[s].name == x.name;
                assert(a[s].name == a[a.len() - 1].name);
            }
        }
        assert(!as_map(pb).dom().contains(y.name)) by {
            lemma_wf_distinct(pb);
            lemma_as_map_props(pb);
            if as_map(pb).dom().contains(y.name) {
                let s = choose|s: int| 0 <= s < pb.len() && pb[s].name == y.name;
                assert(b[s].name == b[b.len() - 1].name);
            }
        }
        assert(as_map(pa) =~= as_map(a).remove(x.name));
        assert(as_map(pb) =~= as_map(b).remove(y.name));
        lemma_wf_canonical(pa, pb);
        assert(a =~= pa.push(x));
        assert(b =~= pb.push(y));
    }
}

/// Statistics for an entire project.
#[derive(Debug)]
pub struct ProjectStats {
    languages: Vec<LanguageStats>,
}

impl View for ProjectStats {
    type V = Seq<LangStatView>;

    closed spec fn view(&self) -> Seq<LangStatView> {
        self.languages@.map_values(|l: LanguageStats| l@)
    }
}

impl ProjectStats {
    /// Create a new empty ProjectStats.
    pub fn new() -> (r: ProjectStats)
        ensures
            r@ == Seq::<LangStatView>::empty(),
            wf_langs(r@),
            as_map(r@) == Map::<Seq<char>, (int, StatsView)>::empty(),
    {
        let r = ProjectStats { languages: Vec::new() };
        proof {
            assert(r@ =~= Seq::<LangStatView>::empty());
        }
        r
    }

    /// Fold a group of `files` files, already summed in `stats`, into
    /// the entry for `language`, creating it if new.
    fn add_entry(&mut self, language: &str, files: usize, stats: FileStats)
        requires
            wf_langs(old(self)@),
            can_add_entry(as_map(old(self)@), language@, files as int, stats@),
        ensures
            wf_langs(final(self)@),
            as_map(final(self)@) == map_add_entry(
                as_map(old(self)@),
                language@,
                files as int,
                stats@,
            ),
    {
        proof {
            lemma_wf_distinct(old(self)@);
            lemma_as_map_props(old(self)@);
        }
        let ghost olds = self@;
        let n = self.languages.len();
        let mut i: usize = 0;
        while i < n && str_lt(self.languages[i].language.as_str(), language)
            invariant
                i <= n,
                n == self.languages@.len(),
                self == old(self),
                olds == self@,
                forall|j: int| 0 <= j < i ==> lex_lt(#[trigger] olds[j].name, language@),
            decreases n - i,
        {
            proof {
                assert(olds[i as int].name == self.languages@[i as int].language@);
            }
            i = i + 1;
        }
        proof {
            assert(olds.len() == n);
            if i < n {
                assert(olds[i as int].name == self.languages@[i as int].language@);
            }
        }
        if i < n && str_eq(self.languages[i].language.as_str(), language) {
            // The language is already present: bump its counters.
            proof {
                assert(olds[i as int].name == language@);
                assert(as_map(olds)[language@] == (olds[i as int].files, olds[i as int].stats));
            }
            let mut e = self.languages.remove(i);
            e.files = e.files + files;
            e.stats.add_assign(stats);
            self.languages.insert(i, e);
            proof {
                let ns = self@;
                assert(ns =~= olds.update(i as int, ns[i as int]));
                assert(ns[i as int].name == language@);
                assert(ns[i as int].files == olds[i as int].files + files);
                assert(ns[i as int].stats == olds[i as int].stats.sum(stats@));
                assert forall|a: int, b: int| 0 <= a < b < ns.len() implies lex_lt(
                    ns[a].name,
                    ns[b].name,
                ) by {
                    assert(ns[a].name == olds[a].name);
                    assert(ns[b].name == olds[b].name);
                }
                lemma_wf_distinct(ns);
                lemma_as_map_props(ns);
                assert(as_map(ns) =~= map_add_entry(
                    as_map(olds),
                    language@,
                    files as int,
                    stats@,
                )) by {
                    let rhs = map_add_entry(as_map(olds), language@, files as int, stats@);
                    assert forall|k: Seq<char>| #[trigger] as_map(ns).dom().contains(k) implies rhs
                        .dom().contains(k) && as_map(ns)[k] == rhs[k] by {
                        let j = choose|j: int| 0 <= j < ns.len() && ns[j].name == k;
                        if j == i {
                        } else {
                            assert(olds[j] == ns[j]);
                        }
                    }
                    assert forall|k: Seq<char>| #[trigger] rhs.dom().contains(k) implies as_map(
                        ns,
                    ).dom().contains(k) by {
                        if k == language@ {
                            assert(ns[i as int].name == k);
                        } else {
                            assert(as_map(olds).dom().contains(k));
                            let j = choose|j: int| 0 <= j < olds.len() && olds[j].name == k;
                            assert(ns[j].name == k);
                        }
                    }
                }
            }
        } else {
            // A new language: insert it, keeping the names sorted.
            let e = LanguageStats { language: String::from_str(language), files, stats };
            self.languages.insert(i, e);
            proof {
                let ns = self@;
                assert(ns =~= olds.insert(i as int, e@));
                assert(e@.name == language@);
                assert(!as_map(olds).dom().contains(language@)) by {
                    if as_map(olds).dom().contains(language@) {
                        let j = choose|j: int| 0 <= j < olds.len() && olds[j].name == language@;
                        if j < i {
                            lemma_lex_irrefl(language@);
                        } else {
                            assert(i < n);
                            if j == i {
                            } else {
                                assert(lex_lt(olds[i as int].name, olds[j].name));
                                lemma_lex_connex(olds[i as int].name, language@);
                                lemma_lex_trans(language@, olds[i as int].name, olds[j].name);
                                lemma_lex_irrefl(language@);
                            }
                        }
                    }
                }
                assert forall|a: int, b: int| 0 <= a < b < ns.len() implies lex_lt(
                    ns[a].name,
                    ns[b].name,
                ) by {
                    if b < i {
                        assert(ns[a] == olds[a] && ns[b] == olds[b]);
                    } else if a < i && b == i {
                        assert(ns[a] == olds[a]);
                    } else if a < i && b > i {
                        assert(ns[a] == olds[a] && ns[b] == olds[b - 1]);
                        if b - 1 == i {
                            assert(i < n);
                            lemma_lex_connex(olds[i as int].name, language@);
                            lemma_lex_trans(olds[a].name, language@, olds[i as int].name);
                        }
                    } else if a == i {
                        assert(ns[b] == olds[b - 1]);
                        assert(i < n);
                        lemma_lex_connex(olds[i as int].name, language@);
                        if b - 1 > i {
                            lemma_lex_trans(language@, olds[i as int].name, olds[b - 1].name);
                        }
                    } else {
                        assert(ns[a] == olds[a - 1] && ns[b] == olds[b - 1]);
                    }
                }
                lemma_wf_distinct(ns);
                lemma_as_map_props(ns);
                assert(as_map(ns) =~= map_add_entry(
                    as_map(olds),
                    language@,
                    files as int,
                    stats@,
                )) by {
                    let rhs = map_add_entry(as_map(olds), language@, files as int, stats@);
                    assert forall|k: Seq<char>| #[trigger] as_map(ns).dom().contains(k) implies rhs
                        .dom().contains(k) && as_map(ns)[k] == rhs[k] by {
                        let j = choose|j: int| 0 <= j < ns.len() && ns[j].name == k;
                        if j == i {
                        } else if j < i {
                            assert(olds[j] == ns[j]);
                        } else {
                            assert(olds[j - 1] == ns[j]);
                        }
                    }
                    assert forall|k: Seq<char>| #[trigger] rhs.dom().contains(k) implies as_map(
                        ns,
                    ).dom().contains(k) by {
                        if k == language@ {
                            assert(ns[i as int].name == k);
                        } else {
                            assert(as_map(olds).dom().contains(k));
                            let j = choose|j: int| 0 <= j < olds.len() && olds[j].name == k;
                            if j < i {
                                assert(ns[j].name == k);
                            } else {
                                assert(ns[j + 1].name == k);
                            }
                        }
                    }
                }
            }
        }
    }

    /// Add file statistics for a specific language.
    pub fn add_file_stats(&mut self, language: &str, stats: FileStats)
        requires
            wf_langs(old(self)@),
            can_add_entry(as_map(old(self)@), language@, 1, stats@),
        ensures
            wf_langs(final(self)@),
            as_map(final(self)@) == map_add_file(as_map(old(self)@), language@, stats@),
    {
        self.add_entry(language, 1, stats);
    }

    /// Combine two independently built project statistics.
    pub fn merge(&mut self, other: ProjectStats)
        requires
            wf_langs(old(self)@),
            wf_langs(other@),
            can_merge(as_map(old(self)@), as_map(other@)),
        ensures
            wf_langs(final(self)@),
            as_map(final(self)@) == merge_maps(as_map(old(self)@), as_map(other@)),
    {
        proof {
            lemma_wf_distinct(other@);
            lemma_as_map_props(other@);
            assert(other@.take(0) =~= Seq::<LangStatView>::empty());
            lemma_merge_empty(as_map(old(self)@));
        }
        let ghost oa = as_map(old(self)@);
        let ghost os = other@;
        let n = other.languages.len();
        let mut i: usize = 0;
        while i < n
            invariant
                i <= n,
                n == other.languages@.len(),
                os == other@,
                wf_langs(os),
                forall|a: int, b: int| 0 <= a < b < os.len() ==> os[a].name != os[b].name,
                forall|a: int|
                    0 <= a < os.len() ==> as_map(os).dom().contains(#[trigger] os[a].name)
                        && as_map(os)[os[a].name] == (os[a].files, os[a].stats),
                can_merge(oa, as_map(os)),
                wf_langs(self@),
                as_map(self@) == merge_maps(oa, as_map(os.take(i as int))),
            decreases n - i,
        {
            let ghost pre = as_map(os.take(i as int));
            proof {
                assert(os.take(i + 1).drop_last() =~= os.take(i as int));
                assert(os.take(i + 1).last() == os[i as int]);
                assert(os[i as int] == other.languages@[i as int]@);
                // The name at i is fresh in the prefix map.
                assert(!pre.dom().contains(os[i as int].name)) by {
                    lemma_as_map_props(os.take(i as int));
                    if pre.dom().contains(os[i as int].name) {
                        let j = choose|j: int|
                            0 <= j < i && os.take(i as int)[j].name == os[i as int].name;
                        assert(os[j].name == os[i as int].name);
                    }
                }
                lemma_merge_insert_fresh(
                    oa,
                    pre,
                    os[i as int].name,
                    (os[i as int].files, os[i as int].stats),
                );
                // The step stays within machine bounds.
                assert(can_add_entry(
                    merge_maps(oa, pre),
                    os[i as int].name,
                    os[i as int].files,
                    os[i as int].stats,
                )) by {
                    if merge_maps(oa, pre).dom().contains(os[i as int].name) {
                        assert(oa.dom().contains(os[i as int].name));
                        assert(as_map(os).dom().contains(os[i as int].name));
                    }
                }
            }
            let e = &other.languages[i];
            self.add_entry(e.language.as_str(), e.files, e.stats);
            i = i + 1;
        }
        proof {
            assert(os.take(n as int) =~= os);
        }
    }

    /// Get the per-language statistics, sorted by language name.
    pub fn get_languages(&self) -> (r: Vec<LanguageStats>)
        ensures
            r@.map_values(|l: LanguageStats| l@) == self@,
    {
        let n = self.languages.len();
        let mut r: Vec<LanguageStats> = Vec::new();
        proof {
            assert(r@.map_values(|l: LanguageStats| l@) =~= self@.take(0));
        }
        let mut i: usize = 0;
        while i < n
            invariant
                i <= n,
                n == self.languages@.len(),
                r@.len() == i,
                r@.map_values(|l: LanguageStats| l@) == self@.take(i as int),
            decreases n - i,
        {
            let e = &self.languages[i];
            r.push(LanguageStats { language: e.language.clone(), files: e.files, stats: e.stats });
            proof {
                assert(r@.map_values(|l: LanguageStats| l@) =~= self@.take(i + 1));
            }
            i = i + 1;
        }
        proof {
            assert(self@.take(n as int) =~= self@);
        }
        r
    }

    /// The file count and statistics summed over all languages.
    pub open spec fn totals(s: Seq<LangStatView>) -> (int, StatsView)
        decreases s.len(),
    {
        if s.len() == 0 {
            (0, StatsView::zero())
        } else {
            let p = Self::totals(s.drop_last());
            (p.0 + s.last().files, p.1.sum(s.last().stats))
        }
    }

    /// Calculate total statistics across all languages.
    pub fn total(&self) -> (r: (usize, FileStats))
        requires
            Self::totals(self@).0 <= usize::MAX,
            Self::totals(self@).1.fits(),
        ensures
            r.0 == Self::totals(self@).0,
            r.1@ == Self::totals(self@).1,
    {
        proof {
            assert forall|j: int| 0 <= j < self@.len() implies #[trigger] self@[j].files >= 0
                && self@[j].stats.blank >= 0 && self@[j].stats.comment >= 0 && self@[j].stats.code
                >= 0 by {
                assert(self@[j] == self.languages@[j]@);
            }
        }
        let n = self.languages.len();
        let mut total_files: usize = 0;
        let mut total_stats = FileStats::new();
        proof {
            assert(self@.take(0) =~= Seq::<LangStatView>::empty());
        }
        let mut i: usize = 0;
        while i < n
            invariant
                i <= n,
                n == self.languages@.len(),
                self@.len() == n,
                Self::totals(self@).0 <= usize::MAX,
                Self::totals(self@).1.fits(),
                forall|j: int|
                    0 <= j < self@.len() ==> #[trigger] self@[j].files >= 0 && self@[j].stats.blank
                        >= 0 && self@[j].stats.comment >= 0 && self@[j].stats.code >= 0,
                total_files as int == Self::totals(self@.take(i as int)).0,
                total_stats@ == Self::totals(self@.take(i as int)).1,
            decreases n - i,
        {
            proof {
                assert(self@.take(i + 1).drop_last() =~= self@.take(i as int));
                assert(self@.take(i + 1).last() == self@[i as int]);
                assert(self@[i as int] == self.languages@[i as int]@);
                lemma_totals_prefix_bound(self@, i + 1);
            }
            let e = &self.languages[i];
            total_files = total_files + e.files;
            total_stats.add_assign(e.stats);
            i = i + 1;
        }
        proof {
            assert(self@.take(n as int) =~= self@);
        }
        (total_files, total_stats)
    }
}

/// The view of a real `ProjectStats` entry lies within machine bounds.
pub proof fn lemma_view_entry_bounds(p: &ProjectStats, j: int)
    requires
        0 <= j < p@.len(),
    ensures
        0 <= p@[j].files <= usize::MAX,
        0 <= p@[j].stats.blank <= usize::MAX,
        0 <= p@[j].stats.comment <= usize::MAX,
        0 <= p@[j].stats.code <= usize::MAX,
{
    assert(p@[j] == p.languages@[j]@);
}

/// With nonnegative entries, the totals are nonnegative.
pub proof fn lemma_totals_nonneg(s: Seq<LangStatView>)
    requires
        forall|j: int|
            0 <= j < s.len() ==> #[trigger] s[j].files >= 0 && s[j].stats.blank >= 0
                && s[j].stats.comment >= 0 && s[j].stats.code >= 0,
    ensures
        ProjectStats::totals(s).0 >= 0,
        ProjectStats::totals(s).1.blank >= 0,
        ProjectStats::totals(s).1.comment >= 0,
        ProjectStats::totals(s).1.code >= 0,
    decreases s.len(),
{
    if s.len() > 0 {
        assert forall|j: int|
            0 <= j < s.drop_last().len() implies #[trigger] s.drop_last()[j].files >= 0
            && s.drop_last()[j].stats.blank >= 0 && s.drop_last()[j].stats.comment >= 0
            && s.drop_last()[j].stats.code >= 0 by {
            assert(s.drop_last()[j] == s[j]);
        }
        lemma_totals_nonneg(s.drop_last());
        assert(s[s.len() - 1].files >= 0);
    }
}

/// With nonnegative entries, no single entry exceeds the totals.
pub proof fn lemma_totals_entry_bound(s: Seq<LangStatView>, i: int)
    requires
        0 <= i < s.len(),
        forall|j: int|
            0 <= j < s.len() ==> #[trigger] s[j].files >= 0 && s[j].stats.blank >= 0
                && s[j].stats.comment >= 0 && s[j].stats.code >= 0,
    ensures
        s[i].files <= ProjectStats::totals(s).0,
        s[i].stats.blank <= ProjectStats::totals(s).1.blank,
        s[i].stats.comment <= ProjectStats::totals(s).1.comment,
        s[i].stats.code <= ProjectStats::totals(s).1.code,
    decreases s.len(),
{
    assert forall|j: int|
        0 <= j < s.drop_last().len() implies #[trigger] s.drop_last()[j].files >= 0
        && s.drop_last()[j].stats.blank >= 0 && s.drop_last()[j].stats.comment >= 0
        && s.drop_last()[j].stats.code >= 0 by {
        assert(s.drop_last()[j] == s[j]);
    }
    if i == s.len() - 1 {
        lemma_totals_nonneg(s.drop_last());
    } else {
        lemma_totals_entry_bound(s.drop_last(), i);
        assert(s.drop_last()[i] == s[i]);
        assert(s[s.len() - 1].files >= 0);
    }
}

/// With nonnegative entries, a prefix total never exceeds the whole.
pub proof fn lemma_totals_prefix_bound(s: Seq<LangStatView>, i: int)
    requires
        0 <= i <= s.len(),
        forall|j: int|
            0 <= j < s.len() ==> #[trigger] s[j].files >= 0 && s[j].stats.blank >= 0
                && s[j].stats.comment >= 0 && s[j].stats.code >= 0,
    ensures
        ProjectStats::totals(s.take(i)).0 <= ProjectStats::totals(s).0,
        ProjectStats::totals(s.take(i)).1.blank <= ProjectStats::totals(s).1.blank,
        ProjectStats::totals(s.take(i)).1.comment <= ProjectStats::totals(s).1.comment,
        ProjectStats::totals(s.take(i)).1.code <= ProjectStats::totals(s).1.code,
    decreases s.len(),
{
    if i == s.len() {
        assert(s.take(i) =~= s);
    } else {
        assert(s.take(i) =~= s.drop_last().take(i));
        assert forall|j: int|
            0 <= j < s.drop_last().len() implies #[trigger] s.drop_last()[j].files >= 0
            && s.drop_last()[j].stats.blank >= 0 && s.drop_last()[j].stats.comment >= 0
            && s.drop_last()[j].stats.code >= 0 by {
            assert(s.drop_last()[j] == s[j]);
        }
        lemma_totals_prefix_bound(s.drop_last(), i);
        assert(s[s.len() - 1].files >= 0);
    }
}

} // verus!
