//! Commit-history statistics.
//!
//! A stateless classifier for single added or removed diff lines, daily
//! buckets of additions and deletions folded commit by commit, per-author
//! totals, and weekly aggregation of the daily buckets by ISO week.

use vstd::prelude::*;
use vstd::string::StrSliceExecFns;
use vstd::string::StringExecFns;
use vstd::utf8::{valid_utf8, decode_utf8};
use crate::classifier::{LineType, bump};
use crate::stats::{FileStats, StatsView};
use crate::text::{trim, starts_with, str_trim, str_is_blank, str_starts_with, str_eq};

verus! {

/// The fixed, language-agnostic set of comment-like prefixes used for
/// diff lines, where no per-language state is available.
pub open spec fn is_diff_comment(t: Seq<char>) -> bool {
    ||| starts_with(t, seq!['/', '/'])
    ||| starts_with(t, seq!['#'])
    ||| starts_with(t, seq!['-', '-'])
    ||| starts_with(t, seq!['/', '*'])
    ||| starts_with(t, seq!['*', '/'])
    ||| starts_with(t, seq!['*'])
    ||| starts_with(t, seq!['<', '!', '-', '-'])
    ||| starts_with(t, seq!['-', '-', '>'])
}

/// Classification of one decoded diff line: blank if all whitespace,
/// comment if a comment-like prefix starts the trimmed line, else code.
pub open spec fn diff_class(s: Seq<char>) -> LineType {
    let t = trim(s);
    if t.len() == 0 {
        LineType::Blank
    } else if is_diff_comment(t) {
        LineType::Comment
    } else {
        LineType::Code
    }
}

/// Classification of raw diff bytes: text that does not decode counts
/// as code, the fail-safe default.
pub open spec fn diff_class_bytes(b: Seq<u8>) -> LineType {
    if valid_utf8(b) {
        diff_class(decode_utf8(b))
    } else {
        LineType::Code
    }
}

/// Relies on core::str::from_utf8: it returns `Ok` exactly on
/// well-formed UTF-8, and the string then reads as the bytes' decoding.
#[verifier::external_body]
fn bytes_to_str(content: &[u8]) -> (r: Option<&str>)
    ensures
        match r {
            Some(s) => valid_utf8(content@) && s@ == decode_utf8(content@),
            None => !valid_utf8(content@),
        },
{
    core::str::from_utf8(content).ok()
}

/// Classify one decoded line of diff text.
pub fn classify_diff_text(line: &str) -> (r: LineType)
    ensures
        r == diff_class(line@),
{
    if str_is_blank(line) {
        return LineType::Blank;
    }
    let trimmed = str_trim(line);
    proof {
        reveal_strlit("//");
        reveal_strlit("#");
        reveal_strlit("--");
        reveal_strlit("/*");
        reveal_strlit("*/");
        reveal_strlit("*");
        reveal_strlit("<!--");
        reveal_strlit("-->");
        assert("//"@ =~= seq!['/', '/']);
        assert("#"@ =~= seq!['#']);
        assert("--"@ =~= seq!['-', '-']);
        assert("/*"@ =~= seq!['/', '*']);
        assert("*/"@ =~= seq!['*', '/']);
        assert("*"@ =~= seq!['*']);
        assert("<!--"@ =~= seq!['<', '!', '-', '-']);
        assert("-->"@ =~= seq!['-', '-', '>']);
    }
    if str_starts_with(trimmed, "//") || str_starts_with(trimmed, "#") || str_starts_with(
        trimmed,
        "--",
    ) || str_starts_with(trimmed, "/*") || str_starts_with(trimmed, "*/") || str_starts_with(
        trimmed,
        "*",
    ) || str_starts_with(trimmed, "<!--") || str_starts_with(trimmed, "-->") {
        LineType::Comment
    } else {
        LineType::Code
    }
}

/// Classify a single line from a diff, given as raw bytes.
pub fn classify_diff_line(content: &[u8]) -> (r: LineType)
    ensures
        r == diff_class_bytes(content@),
{
    match bytes_to_str(content) {
        Some(line) => classify_diff_text(line),
        None => LineType::Code,
    }
}

/// The additions and deletions tallies after one diff line: an added
/// line bumps one additions counter by its class, a removed line one
/// deletions counter, and a context line neither.
pub open spec fn tally_spec(
    adds: StatsView,
    dels: StatsView,
    origin: char,
    b: Seq<u8>,
) -> (StatsView, StatsView) {
    if origin == '+' {
        (bump(adds, diff_class_bytes(b)), dels)
    } else if origin == '-' {
        (adds, bump(dels, diff_class_bytes(b)))
    } else {
        (adds, dels)
    }
}

/// Fold one diff line, tagged with its origin ('+' added, '-' removed,
/// anything else context), into the additions and deletions tallies.
pub fn tally_diff_line(
    origin: char,
    content: &[u8],
    additions: &mut FileStats,
    deletions: &mut FileStats,
)
    requires
        origin == '+' ==> old(additions)@.blank < usize::MAX && old(additions)@.comment
            < usize::MAX && old(additions)@.code < usize::MAX,
        origin == '-' ==> old(deletions)@.blank < usize::MAX && old(deletions)@.comment
            < usize::MAX && old(deletions)@.code < usize::MAX,
    ensures
        (final(additions)@, final(deletions)@) == tally_spec(
            old(additions)@,
            old(deletions)@,
            origin,
            content@,
        ),
{
    let line_type = classify_diff_line(content);
    if origin == '+' {
        match line_type {
            LineType::Blank => {
                additions.blank = additions.blank + 1;
            },
            LineType::Comment => {
                additions.comment = additions.comment + 1;
            },
            LineType::Code => {
                additions.code = additions.code + 1;
            },
        }
    } else if origin == '-' {
        match line_type {
            LineType::Blank => {
                deletions.blank = deletions.blank + 1;
            },
            LineType::Comment => {
                deletions.comment = deletions.comment + 1;
            },
            LineType::Code => {
                deletions.code = deletions.code + 1;
            },
        }
    }
}

/// Mathematical value of a `DailyStats`.
pub struct DayView {
    pub date: int,
    pub additions: StatsView,
    pub deletions: StatsView,
    pub net_code: int,
}

/// Statistics for one calendar date, or one week when aggregated; the
/// date is a day number, days since the Unix epoch.
#[derive(Debug, Clone, Copy, PartialEq, Eq, Structural)]
pub struct DailyStats {
    pub date: i64,
    pub additions: FileStats,
    pub deletions: FileStats,
    pub net_code: i64,
}

impl View for DailyStats {
    type V = DayView;

    open spec fn view(&self) -> DayView {
        DayView {
            date: self.date as int,
            additions: self.additions@,
            deletions: self.deletions@,
            net_code: self.net_code as int,
        }
    }
}

/// Mathematical value of an `AuthorStats`.
pub struct AuthorView {
    pub name: Seq<char>,
    pub stats: StatsView,
}

/// Accumulated additions of one commit author.
#[derive(Debug, Clone)]
pub struct AuthorStats {
    pub name: String,
    pub stats: FileStats,
}

impl View for AuthorStats {
    type V = AuthorView;

    open spec fn view(&self) -> AuthorView {
        AuthorView { name: self.name@, stats: self.stats@ }
    }
}

/// The day views of a sequence of daily entries.
pub open spec fn days_of(v: Seq<DailyStats>) -> Seq<DayView> {
    v.map_values(|d: DailyStats| d@)
}

/// Daily entries ordered most recent first, each date once.
pub open spec fn wf_days(s: Seq<DayView>) -> bool {
    forall|i: int, j: int| 0 <= i < j < s.len() ==> s[i].date > s[j].date
}

/// The map from date to additions, deletions and net code delta that a
/// sequence of daily entries represents.
pub open spec fn day_map(s: Seq<DayView>) -> Map<int, (StatsView, StatsView, int)>
    decreases s.len(),
{
    if s.len() == 0 {
        Map::empty()
    } else {
        day_map(s.drop_last()).insert(
            s.last().date,
            (s.last().additions, s.last().deletions, s.last().net_code),
        )
    }
}

/// One bucket's worth folded into the map under `key`: additions and
/// deletions summed, the net delta added.
pub open spec fn bucket_add(
    m: Map<int, (StatsView, StatsView, int)>,
    key: int,
    add: StatsView,
    del: StatsView,
    net: int,
) -> Map<int, (StatsView, StatsView, int)> {
    if m.dom().contains(key) {
        m.insert(key, (m[key].0.sum(add), m[key].1.sum(del), m[key].2 + net))
    } else {
        m.insert(key, (add, del, net))
    }
}

/// The bound under which one more bucket fits the machine counters.
pub open spec fn can_bucket_add(
    m: Map<int, (StatsView, StatsView, int)>,
    key: int,
    add: StatsView,
    del: StatsView,
    net: int,
) -> bool {
    m.dom().contains(key) ==> m[key].0.sum(add).fits() && m[key].1.sum(del).fits() && i64::MIN <= m[
        key
    ].2 + net <= i64::MAX
}

/// With distinct dates, the map of a sequence holds exactly its
/// entries.
pub proof fn lemma_day_map_props(s: Seq<DayView>)
    requires
        forall|i: int, j: int| 0 <= i < j < s.len() ==> s[i].date != s[j].date,
    ensures
        forall|i: int|
            0 <= i < s.len() ==> day_map(s).dom().contains(#[trigger] s[i].date) && day_map(s)[s[
                i
            ].date] == (s[i].additions, s[i].deletions, s[i].net_code),
        forall|k: int|
            #[trigger] day_map(s).dom().contains(k) ==> exists|i: int|
                0 <= i < s.len() && s[i].date == k,
    decreases s.len(),
{
    if s.len() > 0 {
        let p = s.drop_last();
        lemma_day_map_props(p);
        assert forall|i: int|
            0 <= i < s.len() implies day_map(s).dom().contains(#[trigger] s[i].date) && day_map(
            s,
        )[s[i].date] == (s[i].additions, s[i].deletions, s[i].net_code) by {
            if i < s.len() - 1 {
                assert(p[i] == s[i]);
                assert(s[i].date != s.last().date);
            }
        }
        assert forall|k: int| #[trigger] day_map(s).dom().contains(k) implies exists|i: int|
            0 <= i < s.len() && s[i].date == k by {
            if k == s.last().date {
                assert(s[s.len() - 1].date == k);
            } else {
                assert(day_map(p).dom().contains(k));
                let i = choose|i: int| 0 <= i < p.len() && p[i].date == k;
                assert(s[i].date == k);
            }
        }
    }
}

/// Fold one bucket into a most-recent-first vector of daily entries,
/// keeping the order and the one-entry-per-date shape.
fn upsert_bucket(v: &mut Vec<DailyStats>, date: i64, additions: FileStats, deletions: FileStats, net: i64)
    requires
        wf_days(days_of(old(v)@)),
        can_bucket_add(day_map(days_of(old(v)@)), date as int, additions@, deletions@, net as int),
    ensures
        wf_days(days_of(final(v)@)),
        day_map(days_of(final(v)@)) == bucket_add(
            day_map(days_of(old(v)@)),
            date as int,
            additions@,
            deletions@,
            net as int,
        ),
{
    proof {
        lemma_day_map_props(days_of(old(v)@));
    }
    let ghost olds = days_of(v@);
    let n = v.len();
    let mut i: usize = 0;
    while i < n && v[i].date > date
        invariant
            i <= n,
            n == v@.len(),
            v == old(v),
            olds == days_of(v@),
            forall|j: int| 0 <= j < i ==> #[trigger] olds[j].date > date,
        decreases n - i,
    {
        proof {
            assert(olds[i as int].date == v@[i as int].date as int);
        }
        i = i + 1;
    }
    proof {
        assert(olds.len() == n);
        if i < n {
            assert(olds[i as int].date == v@[i as int].date as int);
        }
    }
    if i < n && v[i].date == date {
        // This date already has a bucket: fold the new amounts in.
        proof {
            assert(olds[i as int].date == date as int);
            assert(day_map(olds)[date as int] == (
                olds[i as int].additions,
                olds[i as int].deletions,
                olds[i as int].net_code,
            ));
        }
        let mut e = v.remove(i);
        e.additions.add_assign(additions);
        e.deletions.add_assign(deletions);
        e.net_code = e.net_code + net;
        v.insert(i, e);
        proof {
            let ns = days_of(v@);
            assert(ns =~= olds.update(i as int, ns[i as int]));
            assert(ns[i as int].date == date as int);
            assert forall|a: int, b: int| 0 <= a < b < ns.len() implies ns[a].date > ns[b].date by {
                assert(ns[a].date == olds[a].date);
                assert(ns[b].date == olds[b].date);
            }
            lemma_day_map_props(ns);
            assert(day_map(ns) =~= bucket_add(
                day_map(olds),
                date as int,
                additions@,
                deletions@,
                net as int,
            )) by {
                let rhs = bucket_add(day_map(olds), date as int, additions@, deletions@, net as int);
                assert forall|k: int| #[trigger] day_map(ns).dom().contains(k) implies rhs
                    .dom().contains(k) && day_map(ns)[k] == rhs[k] by {
                    let j = choose|j: int| 0 <= j < ns.len() && ns[j].date == k;
                    if j == i {
                    } else {
                        assert(olds[j] == ns[j]);
                    }
                }
                assert forall|k: int| #[trigger] rhs.dom().contains(k) implies day_map(
                    ns,
                ).dom().contains(k) by {
                    if k == date as int {
                        assert(ns[i as int].date == k);
                    } else {
                        assert(day_map(olds).dom().contains(k));
                        let j = choose|j: int| 0 <= j < olds.len() && olds[j].date == k;
                        assert(ns[j].date == k);
                    }
                }
            }
        }
    } else {
        // A new date: insert its bucket, keeping most-recent-first order.
        let e = DailyStats { date, additions, deletions, net_code: net };
        v.insert(i, e);
        proof {
            let ns = days_of(v@);
            assert(ns =~= olds.insert(i as int, e@));
            assert(e@.date == date as int);
            assert(!day_map(olds).dom().contains(date as int)) by {
                if day_map(olds).dom().contains(date as int) {
                    let j = choose|j: int| 0 <= j < olds.len() && olds[j].date == date as int;
                    if j < i {
                    } else {
                        assert(i < n);
                        if j != i {
                            assert(olds[i as int].date > olds[j].date);
                        }
                    }
                }
            }
            assert forall|a: int, b: int| 0 <= a < b < ns.len() implies ns[a].date > ns[b].date by {
                if b < i {
                    assert(ns[a] == olds[a] && ns[b] == olds[b]);
                } else if a < i && b == i {
                    assert(ns[a] == olds[a]);
                } else if a < i && b > i {
                    assert(ns[a] == olds[a] && ns[b] == olds[b - 1]);
                    if b - 1 == i {
                        assert(i < n);
                    }
                } else if a == i {
                    assert(ns[b] == olds[b - 1]);
                    assert(i < n);
                } else {
                    assert(ns[a] == olds[a - 1] && ns[b] == olds[b - 1]);
                }
            }
            lemma_day_map_props(ns);
            assert(day_map(ns) =~= bucket_add(
                day_map(olds),
                date as int,
                additions@,
                deletions@,
                net as int,
            )) by {
                let rhs = bucket_add(day_map(olds), date as int, additions@, deletions@, net as int);
                assert forall|k: int| #[trigger] day_map(ns).dom().contains(k) implies rhs
                    .dom().contains(k) && day_map(ns)[k] == rhs[k] by {
                    let j = choose|j: int| 0 <= j < ns.len() && ns[j].date == k;
                    if j == i {
                    } else if j < i {
                        assert(olds[j] == ns[j]);
                    } else {
                        assert(olds[j - 1] == ns[j]);
                    }
                }
                assert forall|k: int| #[trigger] rhs.dom().contains(k) implies day_map(
                    ns,
                ).dom().contains(k) by {
                    if k == date as int {
                        assert(ns[i as int].date == k);
                    } else {
                        assert(day_map(olds).dom().contains(k));
                        let j = choose|j: int| 0 <= j < olds.len() && olds[j].date == k;
                        if j < i {
                            assert(ns[j].date == k);
                        } else {
                            assert(ns[j + 1].date == k);
                        }
                    }
                }
            }
        }
    }
}

/// The author views of a sequence of per-author entries.
pub open spec fn authors_of(v: Seq<AuthorStats>) -> Seq<AuthorView> {
    v.map_values(|a: AuthorStats| a@)
}

/// Each author appears once.
pub open spec fn wf_authors(s: Seq<AuthorView>) -> bool {
    forall|i: int, j: int| 0 <= i < j < s.len() ==> s[i].name != s[j].name
}

/// The map from author name to accumulated additions that a sequence
/// of per-author entries represents.
pub open spec fn author_map(s: Seq<AuthorView>) -> Map<Seq<char>, StatsView>
    decreases s.len(),
{
    if s.len() == 0 {
        Map::empty()
    } else {
        author_map(s.drop_last()).insert(s.last().name, s.last().stats)
    }
}

/// One commit's additions folded into an author's total.
pub open spec fn author_add(m: Map<Seq<char>, StatsView>, name: Seq<char>, st: StatsView) -> Map<
    Seq<char>,
    StatsView,
> {
    if m.dom().contains(name) {
        m.insert(name, m[name].sum(st))
    } else {
        m.insert(name, st)
    }
}

/// The bound under which one more commit fits an author's counters.
pub open spec fn can_author_add(m: Map<Seq<char>, StatsView>, name: Seq<char>, st: StatsView) -> bool {
    m.dom().contains(name) ==> m[name].sum(st).fits()
}

/// With distinct names, the map of a sequence holds exactly its
/// entries.
pub proof fn lemma_author_map_props(s: Seq<AuthorView>)
    requires
        wf_authors(s),
    ensures
        forall|i: int|
            0 <= i < s.len() ==> author_map(s).dom().contains(#[trigger] s[i].name) && author_map(
                s,
            )[s[i].name] == s[i].stats,
        forall|k: Seq<char>|
            #[trigger] author_map(s).dom().contains(k) ==> exists|i: int|
                0 <= i < s.len() && s[i].name == k,
    decreases s.len(),
{
    if s.len() > 0 {
        let p = s.drop_last();
        lemma_author_map_props(p);
        assert forall|i: int|
            0 <= i < s.len() implies author_map(s).dom().contains(#[trigger] s[i].name)
            && author_map(s)[s[i].name] == s[i].stats by {
            if i < s.len() - 1 {
                assert(p[i] == s[i]);
                assert(s[i].name != s.last().name);
            }
        }
        assert forall|k: Seq<char>| #[trigger] author_map(s).dom().contains(k) implies exists|
            i: int,
        | 0 <= i < s.len() && s[i].name == k by {
            if k == s.last().name {
                assert(s[s.len() - 1].name == k);
            } else {
                assert(author_map(p).dom().contains(k));
                let i = choose|i: int| 0 <= i < p.len() && p[i].name == k;
                assert(s[i].name == k);
            }
        }
    }
}

/// Fold one commit's additions into the per-author totals.
fn upsert_author(v: &mut Vec<AuthorStats>, name: &str, additions: FileStats)
    requires
        wf_authors(authors_of(old(v)@)),
        can_author_add(author_map(authors_of(old(v)@)), name@, additions@),
    ensures
        wf_authors(authors_of(final(v)@)),
        author_map(authors_of(final(v)@)) == author_add(
            author_map(authors_of(old(v)@)),
            name@,
            additions@,
        ),
{
    proof {
        lemma_author_map_props(authors_of(old(v)@));
    }
    let ghost olds = authors_of(v@);
    let n = v.len();
    let mut i: usize = 0;
    while i < n
        invariant
            i <= n,
            n == v@.len(),
            v == old(v),
            olds == authors_of(v@),
            wf_authors(olds),
            can_author_add(author_map(olds), name@, additions@),
            forall|j: int| 0 <= j < i ==> #[trigger] olds[j].name != name@,
        decreases n - i,
    {
        proof {
            assert(olds[i as int].name == v@[i as int].name@);
        }
        if str_eq(v[i].name.as_str(), name) {
            // The author is already present: add the commit in.
            proof {
                lemma_author_map_props(olds);
                assert(olds[i as int].name == name@);
                assert(author_map(olds)[name@] == olds[i as int].stats);
            }
            let mut e = v.remove(i);
            e.stats.add_assign(additions);
            v.insert(i, e);
            proof {
                let ns = authors_of(v@);
                assert(ns =~= olds.update(i as int, ns[i as int]));
                assert(ns[i as int].name == name@);
                assert forall|a: int, b: int| 0 <= a < b < ns.len() implies ns[a].name != ns[
                    b
                ].name by {
                    assert(ns[a].name == olds[a].name);
                    assert(ns[b].name == olds[b].name);
                }
                lemma_author_map_props(ns);
                assert(author_map(ns) =~= author_add(author_map(olds), name@, additions@)) by {
                    let rhs = author_add(author_map(olds), name@, additions@);
                    assert forall|k: Seq<char>| #[trigger] author_map(ns).dom().contains(
                        k,
                    ) implies rhs.dom().contains(k) && author_map(ns)[k] == rhs[k] by {
                        let j = choose|j: int| 0 <= j < ns.len() && ns[j].name == k;
                        if j != i {
                            assert(olds[j] == ns[j]);
                        }
                    }
                    assert forall|k: Seq<char>| #[trigger] rhs.dom().contains(k) implies author_map(
                        ns,
                    ).dom().contains(k) by {
                        if k == name@ {
                            assert(ns[i as int].name == k);
                        } else {
                            assert(author_map(olds).dom().contains(k));
                            let j = choose|j: int| 0 <= j < olds.len() && olds[j].name == k;
                            assert(ns[j].name == k);
                        }
                    }
                }
            }
            return ;
        }
        i = i + 1;
    }
    // A new author.
    let e = AuthorStats { name: String::from_str(name), stats: additions };
    v.push(e);
    proof {
        let ns = authors_of(v@);
        assert(ns =~= olds.push(e@));
        assert(e@.name == name@);
        assert(!author_map(olds).dom().contains(name@)) by {
            if author_map(olds).dom().contains(name@) {
                let j = choose|j: int| 0 <= j < olds.len() && olds[j].name == name@;
            }
        }
        assert forall|a: int, b: int| 0 <= a < b < ns.len() implies ns[a].name != ns[b].name by {
            if b < ns.len() - 1 {
                assert(ns[a] == olds[a] && ns[b] == olds[b]);
            } else {
                assert(ns[a] == olds[a]);
            }
        }
        assert(ns.drop_last() =~= olds);
    }
}

/// Historical statistics aggregated from commit history.
#[derive(Debug)]
pub struct HistoricalStats {
    pub daily: Vec<DailyStats>,
    pub by_author: Vec<AuthorStats>,
    pub total_commits: usize,
}

/// The Monday of the ISO week containing day `d` (day numbers count
/// from the Unix epoch, which fell on a Thursday).
pub open spec fn monday_of(d: int) -> int {
    d - ((d + 3) % 7)
}

/// Day numbers this library works with: far wider than any calendar in
/// use, and far from the machine limits.
pub open spec fn date_in_range(d: int) -> bool {
    -4000000000 <= d <= 4000000000
}

/// A Monday is its own week's Monday.
pub proof fn lemma_monday_idem(d: int)
    ensures
        monday_of(monday_of(d)) == monday_of(d),
{
    let r = (d + 3) % 7;
    assert(0 <= r < 7);
    assert((d - r + 3) % 7 == 0) by {
        assert(d + 3 == 7 * ((d + 3) / 7) + r);
    }
}

/// The map from week (keyed by its Monday) to summed additions,
/// deletions and net delta over the daily entries.
pub open spec fn week_map(s: Seq<DayView>) -> Map<int, (StatsView, StatsView, int)>
    decreases s.len(),
{
    if s.len() == 0 {
        Map::empty()
    } else {
        bucket_add(
            week_map(s.drop_last()),
            monday_of(s.last().date),
            s.last().additions,
            s.last().deletions,
            s.last().net_code,
        )
    }
}

/// Every key of the weekly map is a Monday.
pub proof fn lemma_week_keys(s: Seq<DayView>)
    ensures
        forall|k: int| #[trigger] week_map(s).dom().contains(k) ==> monday_of(k) == k,
    decreases s.len(),
{
    if s.len() > 0 {
        lemma_week_keys(s.drop_last());
        lemma_monday_idem(s.last().date);
        assert forall|k: int| #[trigger] week_map(s).dom().contains(k) implies monday_of(k)
            == k by {
            if k != monday_of(s.last().date) {
                assert(week_map(s.drop_last()).dom().contains(k));
            }
        }
    }
}

/// The bound under which every step of the weekly fold fits the
/// machine counters.
pub open spec fn weeks_bounded(s: Seq<DayView>) -> bool {
    forall|i: int|
        0 <= i < s.len() ==> can_bucket_add(
            week_map(#[trigger] s.take(i)),
            monday_of(s[i].date),
            s[i].additions,
            s[i].deletions,
            s[i].net_code,
        )
}

/// The Monday of the week containing `date`.
fn monday_exec(date: i64) -> (m: i64)
    requires
        date_in_range(date as int),
    ensures
        m as int == monday_of(date as int),
{
    let wd = (date + 3).checked_rem_euclid(7).unwrap();
    date - wd
}

impl HistoricalStats {
    /// Create empty historical statistics.
    pub fn new() -> (r: HistoricalStats)
        ensures
            r.daily@ == Seq::<DailyStats>::empty(),
            r.by_author@ == Seq::<AuthorStats>::empty(),
            r.total_commits == 0,
            wf_days(days_of(r.daily@)),
            wf_authors(authors_of(r.by_author@)),
            day_map(days_of(r.daily@)) == Map::<int, (StatsView, StatsView, int)>::empty(),
            author_map(authors_of(r.by_author@)) == Map::<Seq<char>, StatsView>::empty(),
    {
        let r = HistoricalStats { daily: Vec::new(), by_author: Vec::new(), total_commits: 0 };
        proof {
            assert(r.daily@ =~= Seq::<DailyStats>::empty());
            assert(r.by_author@ =~= Seq::<AuthorStats>::empty());
            assert(days_of(r.daily@) =~= Seq::<DayView>::empty());
            assert(authors_of(r.by_author@) =~= Seq::<AuthorView>::empty());
        }
        r
    }

    /// Fold one commit into the daily buckets, the author totals and
    /// the commit count.
    pub fn record_commit(
        &mut self,
        date: i64,
        author: Option<&str>,
        additions: FileStats,
        deletions: FileStats,
    )
        requires
            wf_days(days_of(old(self).daily@)),
            wf_authors(authors_of(old(self).by_author@)),
            old(self).total_commits < usize::MAX,
            additions@.code <= i64::MAX,
            deletions@.code <= i64::MAX,
            can_bucket_add(
                day_map(days_of(old(self).daily@)),
                date as int,
                additions@,
                deletions@,
                additions@.code - deletions@.code,
            ),
            author is Some ==> can_author_add(
                author_map(authors_of(old(self).by_author@)),
                author->0@,
                additions@,
            ),
        ensures
            wf_days(days_of(final(self).daily@)),
            wf_authors(authors_of(final(self).by_author@)),
            final(self).total_commits == old(self).total_commits + 1,
            day_map(days_of(final(self).daily@)) == bucket_add(
                day_map(days_of(old(self).daily@)),
                date as int,
                additions@,
                deletions@,
                additions@.code - deletions@.code,
            ),
            match author {
                Some(a) => author_map(authors_of(final(self).by_author@)) == author_add(
                    author_map(authors_of(old(self).by_author@)),
                    a@,
                    additions@,
                ),
                None => final(self).by_author == old(self).by_author,
            },
    {
        self.total_commits = self.total_commits + 1;
        let net: i64 = (additions.code as i64) - (deletions.code as i64);
        upsert_bucket(&mut self.daily, date, additions, deletions, net);
        match author {
            Some(a) => {
                upsert_author(&mut self.by_author, a, additions);
            },
            None => {},
        }
    }

    /// Aggregate daily statistics by week (Monday-Sunday).
    ///
    /// Returns a new vector of DailyStats where each entry represents a
    /// week, dated at its Monday, most recent week first.
    pub fn aggregate_by_week(&self) -> (r: Vec<DailyStats>)
        requires
            forall|i: int|
                0 <= i < self.daily@.len() ==> date_in_range(
                    #[trigger] days_of(self.daily@)[i].date,
                ),
            weeks_bounded(days_of(self.daily@)),
        ensures
            wf_days(days_of(r@)),
            day_map(days_of(r@)) == week_map(days_of(self.daily@)),
            forall|i: int|
                0 <= i < r@.len() ==> days_of(r@)[i].date == monday_of(
                    #[trigger] days_of(r@)[i].date,
                ),
    {
        let ghost ds = days_of(self.daily@);
        let mut r: Vec<DailyStats> = Vec::new();
        proof {
            assert(days_of(r@) =~= Seq::<DayView>::empty());
            assert(ds.take(0) =~= Seq::<DayView>::empty());
        }
        let n = self.daily.len();
        let mut i: usize = 0;
        while i < n
            invariant
                i <= n,
                n == self.daily@.len(),
                ds == days_of(self.daily@),
                forall|j: int| 0 <= j < ds.len() ==> date_in_range(#[trigger] ds[j].date),
                weeks_bounded(ds),
                wf_days(days_of(r@)),
                day_map(days_of(r@)) == week_map(ds.take(i as int)),
            decreases n - i,
        {
            proof {
                assert(ds.take(i + 1).drop_last() =~= ds.take(i as int));
                assert(ds.take(i + 1).last() == ds[i as int]);
                assert(ds[i as int] == self.daily@[i as int]@);
            }
            let d = &self.daily[i];
            let wk = monday_exec(d.date);
            upsert_bucket(&mut r, wk, d.additions, d.deletions, d.net_code);
            i = i + 1;
        }
        proof {
            assert(ds.take(n as int) =~= ds);
            lemma_week_keys(ds);
            let rs = days_of(r@);
            assert forall|a: int, b: int| 0 <= a < b < rs.len() implies rs[a].date != rs[
                b
            ].date by {}
            lemma_day_map_props(rs);
            assert forall|i2: int| 0 <= i2 < r@.len() implies days_of(r@)[i2].date == monday_of(
                days_of(r@)[i2].date,
            ) by {
                assert(day_map(rs).dom().contains(rs[i2].date));
            }
        }
        r
    }
}

impl Default for HistoricalStats {
    fn default() -> (r: Self)
        ensures
            r.daily@ == Seq::<DailyStats>::empty(),
            r.by_author@ == Seq::<AuthorStats>::empty(),
            r.total_commits == 0,
    {
        HistoricalStats::new()
    }
}

} // verus!
