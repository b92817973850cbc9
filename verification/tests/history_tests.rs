use sniffy::classifier::LineType;
use sniffy::history::{classify_diff_line, classify_diff_text, tally_diff_line, HistoricalStats};
use sniffy::stats::FileStats;

#[test]
fn test_classify_diff_line_blank() {
    assert_eq!(classify_diff_line(b""), LineType::Blank);
    assert_eq!(classify_diff_line(b"   "), LineType::Blank);
    assert_eq!(classify_diff_line(b"\t\t"), LineType::Blank);
}

#[test]
fn test_classify_diff_line_comment() {
    assert_eq!(classify_diff_line(b"// comment"), LineType::Comment);
    assert_eq!(classify_diff_line(b"# comment"), LineType::Comment);
    assert_eq!(classify_diff_line(b"/* comment"), LineType::Comment);
    assert_eq!(classify_diff_line(b"-- SQL comment"), LineType::Comment);
}

#[test]
fn test_classify_diff_line_code() {
    assert_eq!(classify_diff_line(b"let x = 5;"), LineType::Code);
    assert_eq!(classify_diff_line(b"fn main() {"), LineType::Code);
}

#[test]
fn test_classify_diff_line_invalid_utf8_is_code() {
    // Bytes that do not decode count as code, the fail-safe default.
    assert_eq!(classify_diff_line(&[0xFF, 0xFE, 0x80]), LineType::Code);
    assert_eq!(classify_diff_line(b"-- comment\xFF"), LineType::Code);
}

#[test]
fn test_classify_diff_text_prefixes() {
    assert_eq!(classify_diff_text("  * bullet doc"), LineType::Comment);
    assert_eq!(classify_diff_text("<!-- html -->"), LineType::Comment);
    assert_eq!(classify_diff_text("--> closing"), LineType::Comment);
    assert_eq!(classify_diff_text("x -- not a prefix"), LineType::Code);
}

fn fs(blank: usize, comment: usize, code: usize) -> FileStats {
    FileStats { blank, comment, code }
}

#[test]
fn test_tally_diff_line() {
    let mut additions = FileStats::new();
    let mut deletions = FileStats::new();
    tally_diff_line('+', b"let x = 5;", &mut additions, &mut deletions);
    tally_diff_line('+', b"// note", &mut additions, &mut deletions);
    tally_diff_line('+', b"   ", &mut additions, &mut deletions);
    tally_diff_line('-', b"fn old() {}", &mut additions, &mut deletions);
    tally_diff_line(' ', b"context stays untallied", &mut additions, &mut deletions);
    assert_eq!(additions, fs(1, 1, 1));
    assert_eq!(deletions, fs(0, 0, 1));
}

#[test]
fn test_record_commit_accumulates() {
    let mut h = HistoricalStats::new();
    // Day 4 is the Monday 1970-01-05; day 5 the Tuesday after it.
    h.record_commit(4, Some("alice"), fs(1, 2, 10), fs(0, 1, 3));
    h.record_commit(5, Some("bob"), fs(2, 0, 5), fs(1, 1, 1));
    h.record_commit(11, Some("alice"), fs(0, 0, 8), fs(0, 0, 2));
    h.record_commit(4, None, fs(0, 0, 1), fs(0, 0, 0));

    assert_eq!(h.total_commits, 4);
    // Most recent date first, one entry per date.
    assert_eq!(h.daily.len(), 3);
    assert_eq!(h.daily[0].date, 11);
    assert_eq!(h.daily[1].date, 5);
    assert_eq!(h.daily[2].date, 4);
    assert_eq!(h.daily[2].additions, fs(1, 2, 11));
    assert_eq!(h.daily[2].deletions, fs(0, 1, 3));
    assert_eq!(h.daily[2].net_code, 8);

    // Authors accumulate additions only, first seen first.
    assert_eq!(h.by_author.len(), 2);
    assert_eq!(h.by_author[0].name, "alice");
    assert_eq!(h.by_author[0].stats, fs(1, 2, 18));
    assert_eq!(h.by_author[1].name, "bob");
    assert_eq!(h.by_author[1].stats, fs(2, 0, 5));
}

#[test]
fn test_aggregate_by_week_two_weeks() {
    let mut h = HistoricalStats::new();
    h.record_commit(4, Some("alice"), fs(1, 2, 10), fs(0, 1, 3));
    h.record_commit(5, Some("bob"), fs(2, 0, 5), fs(1, 1, 1));
    h.record_commit(11, Some("alice"), fs(0, 0, 8), fs(0, 0, 2));

    let weekly = h.aggregate_by_week();
    // Two ISO weeks, each dated at its Monday, most recent first.
    assert_eq!(weekly.len(), 2);
    assert_eq!(weekly[0].date, 11);
    assert_eq!(weekly[0].additions, fs(0, 0, 8));
    assert_eq!(weekly[0].deletions, fs(0, 0, 2));
    assert_eq!(weekly[0].net_code, 6);
    assert_eq!(weekly[1].date, 4);
    assert_eq!(weekly[1].additions, fs(3, 2, 15));
    assert_eq!(weekly[1].deletions, fs(1, 2, 4));
    assert_eq!(weekly[1].net_code, 11);
}

#[test]
fn test_aggregate_by_week_empty() {
    let h = HistoricalStats::new();
    assert_eq!(h.aggregate_by_week().len(), 0);
}

#[test]
fn test_aggregate_by_week_negative_dates() {
    // Day -3 was the Monday 1969-12-29; day 0 the Thursday after it.
    let mut h = HistoricalStats::new();
    h.record_commit(0, None, fs(0, 0, 2), fs(0, 0, 5));
    h.record_commit(-3, None, fs(1, 0, 1), fs(0, 0, 0));
    let weekly = h.aggregate_by_week();
    assert_eq!(weekly.len(), 1);
    assert_eq!(weekly[0].date, -3);
    assert_eq!(weekly[0].additions, fs(1, 0, 3));
    assert_eq!(weekly[0].deletions, fs(0, 0, 5));
    assert_eq!(weekly[0].net_code, -2);
}
