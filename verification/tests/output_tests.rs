use sniffy::output::OutputFormatter;
use sniffy::stats::{FileStats, ProjectStats};

#[test]
fn test_format_number() {
    assert_eq!(OutputFormatter::format_number(0), "0");
    assert_eq!(OutputFormatter::format_number(1), "1");
    assert_eq!(OutputFormatter::format_number(10), "10");
    assert_eq!(OutputFormatter::format_number(100), "100");
    assert_eq!(OutputFormatter::format_number(1000), "1,000");
    assert_eq!(OutputFormatter::format_number(1234), "1,234");
    assert_eq!(OutputFormatter::format_number(12345), "12,345");
    assert_eq!(OutputFormatter::format_number(123456), "123,456");
    assert_eq!(OutputFormatter::format_number(1234567), "1,234,567");
}

#[test]
fn test_format_signed_number() {
    assert_eq!(OutputFormatter::format_signed_number(0), "+0");
    assert_eq!(OutputFormatter::format_signed_number(42), "+42");
    assert_eq!(OutputFormatter::format_signed_number(1234567), "+1,234,567");
    assert_eq!(OutputFormatter::format_signed_number(-50), "-50");
    assert_eq!(OutputFormatter::format_signed_number(-1234), "-1,234");
}

#[test]
fn test_format_csv_empty() {
    let stats = ProjectStats::new();
    let csv = OutputFormatter::format_csv(&stats);
    assert_eq!(csv, "language,files,blank,comment,code,total\n");
}

#[test]
fn test_format_csv_with_data() {
    let mut stats = ProjectStats::new();
    stats.add_file_stats(
        "Rust",
        FileStats {
            blank: 10,
            comment: 20,
            code: 70,
        },
    );
    stats.add_file_stats(
        "Python",
        FileStats {
            blank: 5,
            comment: 10,
            code: 35,
        },
    );

    let csv = OutputFormatter::format_csv(&stats);
    assert_eq!(
        csv,
        "language,files,blank,comment,code,total\n\
         Python,1,5,10,35,50\n\
         Rust,1,10,20,70,100\n\
         Total,2,15,30,105,150\n"
    );
}
