use prmt::bench::bench_stats;
use prmt::modules::git::{parse_porcelain_status, GitStatus};
use prmt::modules::time::TimeParts;
use prmt::modules::utils::{major_version, shorten_version};

#[test]
fn major_of_shortened_version() {
    for v in ["1.76.0", "20", "3.12.2rc1", ".5.6", "a."] {
        assert_eq!(major_version(&shorten_version(v)), major_version(v), "{v}");
        assert_eq!(shorten_version(&shorten_version(v)), shorten_version(v), "{v}");
    }
}

#[test]
fn porcelain_outputs_combine_line_by_line() {
    let a: &[u8] = b"?? new.txt\n";
    let b: &[u8] = b" M lib.rs\nR  old -> new\n";
    let both: Vec<u8> = [a, b].concat();
    let x = parse_porcelain_status(a);
    let y = parse_porcelain_status(b);
    let union = GitStatus {
        modified: x.modified || y.modified,
        staged: x.staged || y.staged,
        untracked: x.untracked || y.untracked,
    };
    assert_eq!(parse_porcelain_status(&both), union);
    assert_eq!(union, GitStatus { modified: true, staged: true, untracked: true });
}

#[test]
fn hour12_round_trips() {
    for hour24 in 0u8..24 {
        let parts = TimeParts { hour24, minute: 0, second: 0 };
        let (hour, suffix) = parts.hour12();
        assert!((1..=12).contains(&hour));
        let back = hour % 12 + if suffix == "PM" { 12 } else { 0 };
        assert_eq!(back, hour24);
    }
}

#[test]
fn bench_average_lies_between_extremes() {
    let times: Vec<u64> = (0..100).map(|i| (i * 37 % 101) as u64 + 5).collect();
    let stats = bench_stats(&times);
    assert!(stats.min <= stats.avg && stats.avg <= stats.max);
    let mut sorted = times.clone();
    sorted.sort();
    assert_eq!(stats.min, sorted[0]);
    assert_eq!(stats.max, sorted[99]);
    assert_eq!(stats.p99, sorted[98]);
    assert_eq!(stats.avg, times.iter().sum::<u64>() / 100);
}

#[test]
fn shortened_versions_are_prefixes_with_one_dot() {
    for v in ["1.2.3", "20.11.0-beta", "3", "4.5", "1..2", ".5.6"] {
        let s = shorten_version(v);
        assert!(v.starts_with(&s));
        assert!(s.matches('.').count() <= 1);
        assert_eq!(s.contains('.'), v.contains('.'));
    }
}
