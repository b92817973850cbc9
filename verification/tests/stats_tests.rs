use sniffy::stats::{FileStats, LanguageStats, ProjectStats};

#[test]
fn test_file_stats_new() {
    let stats = FileStats::new();
    assert_eq!(stats.blank, 0);
    assert_eq!(stats.comment, 0);
    assert_eq!(stats.code, 0);
}

#[test]
fn test_file_stats_total() {
    let stats = FileStats {
        blank: 10,
        comment: 20,
        code: 70,
    };
    assert_eq!(stats.total(), 100);
}

#[test]
fn test_file_stats_add() {
    let stats1 = FileStats {
        blank: 10,
        comment: 20,
        code: 30,
    };
    let stats2 = FileStats {
        blank: 5,
        comment: 15,
        code: 25,
    };
    let result = stats1.add(stats2);
    assert_eq!(result.blank, 15);
    assert_eq!(result.comment, 35);
    assert_eq!(result.code, 55);
}

#[test]
fn test_file_stats_add_assign() {
    let mut stats1 = FileStats {
        blank: 10,
        comment: 20,
        code: 30,
    };
    let stats2 = FileStats {
        blank: 5,
        comment: 15,
        code: 25,
    };
    stats1.add_assign(stats2);
    assert_eq!(stats1.blank, 15);
    assert_eq!(stats1.comment, 35);
    assert_eq!(stats1.code, 55);
}

#[test]
fn test_project_stats_new() {
    let stats = ProjectStats::new();
    assert_eq!(stats.get_languages().len(), 0);
}

#[test]
fn test_project_stats_add_file_stats() {
    let mut project = ProjectStats::new();
    project.add_file_stats(
        "Rust",
        FileStats {
            blank: 10,
            comment: 20,
            code: 70,
        },
    );
    project.add_file_stats(
        "Rust",
        FileStats {
            blank: 5,
            comment: 10,
            code: 35,
        },
    );

    let languages = project.get_languages();
    let rust_stats = languages.iter().find(|l| l.language == "Rust").unwrap();
    assert_eq!(rust_stats.files, 2);
    assert_eq!(rust_stats.stats.blank, 15);
    assert_eq!(rust_stats.stats.comment, 30);
    assert_eq!(rust_stats.stats.code, 105);
}

#[test]
fn test_project_stats_total() {
    let mut project = ProjectStats::new();
    project.add_file_stats(
        "Rust",
        FileStats {
            blank: 10,
            comment: 20,
            code: 70,
        },
    );
    project.add_file_stats(
        "Python",
        FileStats {
            blank: 5,
            comment: 10,
            code: 35,
        },
    );

    let (total_files, total_stats) = project.total();
    assert_eq!(total_files, 2);
    assert_eq!(total_stats.blank, 15);
    assert_eq!(total_stats.comment, 30);
    assert_eq!(total_stats.code, 105);
}

#[test]
fn test_project_stats_get_languages() {
    let mut project = ProjectStats::new();
    project.add_file_stats("Rust", FileStats::default());
    project.add_file_stats("Python", FileStats::default());
    project.add_file_stats("JavaScript", FileStats::default());

    let languages = project.get_languages();
    assert_eq!(languages.len(), 3);
    // Should be sorted alphabetically
    assert_eq!(languages[0].language, "JavaScript");
    assert_eq!(languages[1].language, "Python");
    assert_eq!(languages[2].language, "Rust");
}

fn sample_files() -> Vec<(String, FileStats)> {
    let names = ["Rust", "Python", "Go", "Rust", "C", "Python", "Rust", "HTML", "Go", "C"];
    let mut files = Vec::new();
    for (i, name) in names.iter().enumerate() {
        files.push((
            name.to_string(),
            FileStats {
                blank: i,
                comment: 2 * i + 1,
                code: 7 * i + 3,
            },
        ));
    }
    files
}

fn reduce(files: &[(String, FileStats)]) -> ProjectStats {
    let mut p = ProjectStats::new();
    for (name, stats) in files {
        p.add_file_stats(name, *stats);
    }
    p
}

fn assert_same_projects(a: &ProjectStats, b: &ProjectStats) {
    let la = a.get_languages();
    let lb = b.get_languages();
    assert_eq!(la.len(), lb.len());
    for (x, y) in la.iter().zip(lb.iter()) {
        assert_eq!(x.language, y.language);
        assert_eq!(x.files, y.files);
        assert_eq!(x.stats, y.stats);
    }
    assert_eq!(a.total(), b.total());
}

#[test]
fn test_merge_equals_sequential_reduce() {
    let files = sample_files();
    let whole = reduce(&files);

    // Every split point gives the same merged result.
    for cut in 0..=files.len() {
        let mut left = reduce(&files[..cut]);
        let right = reduce(&files[cut..]);
        left.merge(right);
        assert_same_projects(&left, &whole);
    }
}

#[test]
fn test_merge_random_partitions() {
    let files = sample_files();
    let whole = reduce(&files);

    // Pseudo-random two-way partitions, deterministic across runs.
    let mut seed: u64 = 0x2545F4914F6CDD1D;
    for _ in 0..20 {
        let mut g1: Vec<(String, FileStats)> = Vec::new();
        let mut g2: Vec<(String, FileStats)> = Vec::new();
        for f in &files {
            seed = seed.wrapping_mul(6364136223846793005).wrapping_add(1442695040888963407);
            if (seed >> 33) & 1 == 0 {
                g1.push(f.clone());
            } else {
                g2.push(f.clone());
            }
        }
        let mut merged = reduce(&g1);
        merged.merge(reduce(&g2));
        assert_same_projects(&merged, &whole);
    }
}

#[test]
fn test_merge_empty_is_identity() {
    let files = sample_files();
    let mut p = reduce(&files);
    p.merge(ProjectStats::new());
    assert_same_projects(&p, &reduce(&files));

    let mut q = ProjectStats::new();
    q.merge(reduce(&files));
    assert_same_projects(&q, &reduce(&files));
}

#[test]
fn test_language_stats_fields() {
    let l = LanguageStats {
        language: "Rust".to_string(),
        files: 2,
        stats: FileStats { blank: 1, comment: 2, code: 3 },
    };
    assert_eq!(l.language, "Rust");
    assert_eq!(l.files, 2);
    assert_eq!(l.stats.total(), 6);
}
