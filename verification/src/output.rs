//! Output formatting.
//!
//! Decimal rendering with thousand separators, and the CSV rendering of
//! project statistics. Each rendering is specified exactly, character by
//! character, over the views of the data.

use vstd::prelude::*;
use vstd::string::StrSliceExecFns;
use vstd::string::StringExecFns;
use crate::stats::{
    FileStats, ProjectStats, LangStatView, lemma_totals_entry_bound,
};

verus! {

/// The character of one decimal digit.
pub open spec fn digit_char(d: nat) -> char {
    if d == 0 {
        '0'
    } else if d == 1 {
        '1'
    } else if d == 2 {
        '2'
    } else if d == 3 {
        '3'
    } else if d == 4 {
        '4'
    } else if d == 5 {
        '5'
    } else if d == 6 {
        '6'
    } else if d == 7 {
        '7'
    } else if d == 8 {
        '8'
    } else {
        '9'
    }
}

/// The decimal digits of `n`, most significant first.
pub open spec fn dec_digits(n: nat) -> Seq<char>
    decreases n,
{
    if n < 10 {
        seq![digit_char(n)]
    } else {
        dec_digits(n / 10).push(digit_char(n % 10))
    }
}

/// Digits grouped in threes from the right, separated by commas.
pub open spec fn group3(s: Seq<char>) -> Seq<char>
    decreases s.len(),
{
    if s.len() <= 3 {
        s
    } else {
        group3(s.take(s.len() - 3)) + seq![','] + s.skip(s.len() - 3)
    }
}

/// One decimal digit as a string.
fn digit_str(d: u64) -> (r: &'static str)
    requires
        d < 10,
    ensures
        r@ == seq![digit_char(d as nat)],
{
    proof {
        reveal_strlit("0");
        reveal_strlit("1");
        reveal_strlit("2");
        reveal_strlit("3");
        reveal_strlit("4");
        reveal_strlit("5");
        reveal_strlit("6");
        reveal_strlit("7");
        reveal_strlit("8");
        reveal_strlit("9");
        assert("0"@ =~= seq!['0']);
        assert("1"@ =~= seq!['1']);
        assert("2"@ =~= seq!['2']);
        assert("3"@ =~= seq!['3']);
        assert("4"@ =~= seq!['4']);
        assert("5"@ =~= seq!['5']);
        assert("6"@ =~= seq!['6']);
        assert("7"@ =~= seq!['7']);
        assert("8"@ =~= seq!['8']);
        assert("9"@ =~= seq!['9']);
    }
    if d == 0 {
        "0"
    } else if d == 1 {
        "1"
    } else if d == 2 {
        "2"
    } else if d == 3 {
        "3"
    } else if d == 4 {
        "4"
    } else if d == 5 {
        "5"
    } else if d == 6 {
        "6"
    } else if d == 7 {
        "7"
    } else if d == 8 {
        "8"
    } else {
        "9"
    }
}

/// The plain decimal string of `n`, without separators.
pub fn num_string(n: u64) -> (r: String)
    ensures
        r@ == dec_digits(n as nat),
    decreases n,
{
    if n < 10 {
        String::from_str(digit_str(n))
    } else {
        let mut s = num_string(n / 10);
        s.append(digit_str(n % 10));
        proof {
            assert(dec_digits((n / 10) as nat).push(digit_char((n % 10) as nat)) =~= dec_digits(
                (n / 10) as nat,
            ) + seq![digit_char((n % 10) as nat)]);
        }
        s
    }
}

/// The digits of `s` up to `end`, grouped in threes with commas.
fn group_digits(s: &str, end: usize) -> (r: String)
    requires
        end <= s@.len(),
    ensures
        r@ == group3(s@.take(end as int)),
    decreases end,
{
    proof {
        reveal_strlit(",");
        assert(","@ =~= seq![',']);
    }
    if end <= 3 {
        String::from_str(s.substring_char(0, end))
    } else {
        let mut r = group_digits(s, end - 3);
        r.append(",");
        r.append(s.substring_char(end - 3, end));
        proof {
            let t = s@.take(end as int);
            assert(t.take(t.len() - 3) =~= s@.take(end - 3));
            assert(t.skip(t.len() - 3) =~= s@.subrange(end - 3, end as int));
        }
        r
    }
}

/// The view of one CSV row for a per-language entry.
pub open spec fn csv_line(l: LangStatView) -> Seq<char> {
    l.name + seq![','] + dec_digits(l.files as nat) + seq![','] + dec_digits(l.stats.blank as nat)
        + seq![','] + dec_digits(l.stats.comment as nat) + seq![','] + dec_digits(
        l.stats.code as nat,
    ) + seq![','] + dec_digits((l.stats.blank + l.stats.comment + l.stats.code) as nat) + seq![
        '\n'
    ]
}

/// The views of the CSV rows of all entries, in order.
pub open spec fn csv_rows(s: Seq<LangStatView>) -> Seq<char>
    decreases s.len(),
{
    if s.len() == 0 {
        Seq::empty()
    } else {
        csv_rows(s.drop_last()) + csv_line(s.last())
    }
}

/// The CSV header line.
pub open spec fn csv_header() -> Seq<char> {
    "language,files,blank,comment,code,total\n"@
}

/// The CSV total row over all entries.
pub open spec fn csv_total_row(s: Seq<LangStatView>) -> Seq<char> {
    let t = ProjectStats::totals(s);
    "Total,"@ + dec_digits(t.0 as nat) + seq![','] + dec_digits(t.1.blank as nat) + seq![',']
        + dec_digits(t.1.comment as nat) + seq![','] + dec_digits(t.1.code as nat) + seq![',']
        + dec_digits(t.1.total() as nat) + seq!['\n']
}

/// The whole CSV rendering: header, one row per language in stored
/// order, and a total row when any language is present.
pub open spec fn csv_spec(s: Seq<LangStatView>) -> Seq<char> {
    if s.len() == 0 {
        csv_header()
    } else {
        csv_header() + csv_rows(s) + csv_total_row(s)
    }
}

/// The machine bounds under which the totals of the CSV can be formed.
pub open spec fn csv_in_bounds(s: Seq<LangStatView>) -> bool {
    &&& ProjectStats::totals(s).0 <= usize::MAX
    &&& ProjectStats::totals(s).1.fits()
    &&& ProjectStats::totals(s).1.total() <= usize::MAX
}

/// Output formatter for displaying statistics.
pub struct OutputFormatter {
}

impl OutputFormatter {
    /// Format a number with thousand separators.
    pub fn format_number(n: usize) -> (r: String)
        ensures
            r@ == group3(dec_digits(n as nat)),
    {
        let ds = num_string(n as u64);
        let len = ds.as_str().unicode_len();
        let r = group_digits(ds.as_str(), len);
        proof {
            assert(ds@.take(ds@.len() as int) =~= ds@);
        }
        r
    }

    /// Format a signed number with thousand separators and a +/- sign.
    pub fn format_signed_number(n: i64) -> (r: String)
        requires
            n > i64::MIN,
        ensures
            r@ == (if n >= 0 {
                seq!['+'] + group3(dec_digits(n as nat))
            } else {
                seq!['-'] + group3(dec_digits((-n) as nat))
            }),
    {
        proof {
            reveal_strlit("+");
            assert("+"@ =~= seq!['+']);
            reveal_strlit("-");
            assert("-"@ =~= seq!['-']);
        }
        if n >= 0 {
            let ds = num_string(n as u64);
            let len = ds.as_str().unicode_len();
            let g = group_digits(ds.as_str(), len);
            proof {
                assert(ds@.take(ds@.len() as int) =~= ds@);
            }
            let mut r = String::from_str("+");
            r.append(g.as_str());
            r
        } else {
            let ds = num_string((-n) as u64);
            let len = ds.as_str().unicode_len();
            let g = group_digits(ds.as_str(), len);
            proof {
                assert(ds@.take(ds@.len() as int) =~= ds@);
            }
            let mut r = String::from_str("-");
            r.append(g.as_str());
            r
        }
    }

    /// Format project statistics as CSV.
    pub fn format_csv(stats: &ProjectStats) -> (r: String)
        requires
            csv_in_bounds(stats@),
        ensures
            r@ == csv_spec(stats@),
    {
        proof {
            reveal_strlit(",");
            assert(","@ =~= seq![',']);
            reveal_strlit("\n");
            assert("\n"@ =~= seq!['\n']);
            assert forall|j: int|
                0 <= j < stats@.len() implies #[trigger] stats@[j].files >= 0 && stats@[
                j
            ].stats.blank >= 0 && stats@[j].stats.comment >= 0 && stats@[j].stats.code >= 0 by {
                crate::stats::lemma_view_entry_bounds(stats, j);
            }
        }
        let langs = stats.get_languages();
        let mut out = String::from_str("language,files,blank,comment,code,total\n");
        let n = langs.len();
        proof {
            assert(stats@.take(0) =~= Seq::<LangStatView>::empty());
        }
        let mut i: usize = 0;
        while i < n
            invariant
                i <= n,
                n == langs@.len(),
                langs@.map_values(|l: crate::stats::LanguageStats| l@) == stats@,
                stats@.len() == n,
                csv_in_bounds(stats@),
                forall|j: int|
                    0 <= j < stats@.len() ==> #[trigger] stats@[j].files >= 0 && stats@[
                        j
                    ].stats.blank >= 0 && stats@[j].stats.comment >= 0 && stats@[j].stats.code
                        >= 0,
                out@ == csv_header() + csv_rows(stats@.take(i as int)),
            decreases n - i,
        {
            proof {
                reveal_strlit(",");
                assert(","@ =~= seq![',']);
                reveal_strlit("\n");
                assert("\n"@ =~= seq!['\n']);
                assert(stats@.take(i + 1).drop_last() =~= stats@.take(i as int));
                assert(stats@.take(i + 1).last() == stats@[i as int]);
                assert(langs@[i as int]@ == stats@[i as int]);
                lemma_totals_entry_bound(stats@, i as int);
            }
            let e = &langs[i];
            out.append(e.language.as_str());
            out.append(",");
            out.append(num_string(e.files as u64).as_str());
            out.append(",");
            out.append(num_string(e.stats.blank as u64).as_str());
            out.append(",");
            out.append(num_string(e.stats.comment as u64).as_str());
            out.append(",");
            out.append(num_string(e.stats.code as u64).as_str());
            out.append(",");
            let row_total = e.stats.total();
            out.append(num_string(row_total as u64).as_str());
            out.append("\n");
            i = i + 1;
        }
        proof {
            assert(stats@.take(n as int) =~= stats@);
        }
        if n == 0 {
            return out;
        }
        // Total row
        proof {
            reveal_strlit("Total,");
        }
        let (total_files, total_stats) = stats.total();
        out.append("Total,");
        out.append(num_string(total_files as u64).as_str());
        out.append(",");
        out.append(num_string(total_stats.blank as u64).as_str());
        out.append(",");
        out.append(num_string(total_stats.comment as u64).as_str());
        out.append(",");
        out.append(num_string(total_stats.code as u64).as_str());
        out.append(",");
        let grand_total = total_stats.total();
        out.append(num_string(grand_total as u64).as_str());
        out.append("\n");
        out
    }
}

} // verus!
