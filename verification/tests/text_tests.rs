// Text, sizes, dates, paths and points in time.

use hush::clock::{days, hours, is_due, Stamp};
use hush::dates::{
    atime, atime_in_range, days_from_ymd, days_in_range, mdls_date, mdls_date_in_range,
    mdls_reply_in_range, parse_mdls_date, parse_snapshot_ts, snapshot_ts_in_range,
};
use hush::fmt_bytes;
use hush::lists::{reversed, sort_order};
use hush::paths::{
    extension, file_name, file_stem, has_extension, home_join, join, name_ext, name_stem,
};
use hush::size::total;
use hush::text::{
    chars_of, contains, contains_char, decimal_of, ends_with, is_any, join2, join3, lines_of,
    longer_than, owned, pad_left, pad_right, parse_number, precedes, repeat, rfind, rfind_char,
    same, slice_bytes, sort_dedup, split, starts_with, string_of, strip_back, strip_front,
    trimmed, trimmed_start, truncatable, truncate, words_of,
};
use std::path::Path;

fn list(items: &[&str]) -> Vec<String> {
    items.iter().map(|s| s.to_string()).collect()
}

// ── text ─────────────────────────────────────────────────────────────────────

#[test]
fn searching() {
    assert!(contains("hello", "ell"));
    assert!(contains("hello", ""));
    assert!(!contains("hello", "elo"));
    assert!(!contains("", "a"));
    assert!(starts_with("hello", "he") && !starts_with("hello", "lo"));
    assert!(ends_with("hello", "lo") && !ends_with("hello", "he"));
    assert!(!starts_with("he", "hello") && !ends_with("lo", "hello"));
    assert!(contains_char("a=b", '=') && !contains_char("ab", '='));
    assert!(is_any("b", &list(&["a", "b"])) && !is_any("c", &list(&["a", "b"])));
    assert_eq!(rfind_char(&chars_of("a.b.c"), '.'), Some(3));
    assert_eq!(rfind_char(&chars_of("abc"), '.'), None);
    assert_eq!(rfind(&chars_of("a +b +c"), " +"), Some(4));
    assert_eq!(rfind(&chars_of("abc"), " +"), None);
}

#[test]
fn putting_together() {
    assert_eq!(join2("a", "b"), "ab");
    assert_eq!(join3("a", "b", "c"), "abc");
    assert_eq!(owned("é"), "é");
    assert!(same("é", "é") && !same("é", "e") && !same("a", "ab"));
    assert_eq!(string_of(&chars_of("héllo"), 1, 3), "él");
    assert_eq!(repeat('─', 3), "───");
}

#[test]
fn splitting_follows_std() {
    for s in ["", "\n", "a", "a\n", "a\r\nb", "a\n\nb\n", "\r\n\r", "a\rb"] {
        assert_eq!(lines_of(s), s.lines().map(|l| l.to_string()).collect::<Vec<_>>(), "{s:?}");
    }
    for s in ["", "/", "a/b", "/a//b/"] {
        assert_eq!(split(s, '/'), s.split('/').map(|l| l.to_string()).collect::<Vec<_>>());
    }
    for s in ["", "  ", "a", " a b ", "a\u{2003}b\u{00a0}c", "x\ty\nz"] {
        assert_eq!(
            words_of(s),
            s.split_whitespace().map(|l| l.to_string()).collect::<Vec<_>>()
        );
        assert_eq!(trimmed(s), s.trim());
        assert_eq!(trimmed_start(s), s.trim_start());
    }
}

#[test]
fn repeated_ends_follow_std() {
    for s in ["", "<s>", "<s><s>x</s></s>", "x</s>", "</s>x", "<s>x"] {
        assert_eq!(strip_front(s, "<s>"), s.trim_start_matches("<s>"));
        assert_eq!(strip_back(s, "</s>"), s.trim_end_matches("</s>"));
    }
}

#[test]
fn numbers_follow_std() {
    for s in ["", "0", "+7", "-1", "18446744073709551615", "18446744073709551616", "1a", "+", " 1"] {
        assert_eq!(parse_number(s, u64::MAX), s.parse::<u64>().ok(), "{s:?}");
        assert_eq!(parse_number(s, u32::MAX as u64), s.parse::<u32>().ok().map(|v| v as u64));
    }
    for n in [0u64, 9, 10, 12345, u64::MAX] {
        assert_eq!(decimal_of(n), format!("{n}"));
        assert_eq!(parse_number(&decimal_of(n), u64::MAX), Some(n));
    }
}

#[test]
fn layout_follows_std() {
    for s in ["", "ab", "é", "longer than the width"] {
        assert_eq!(pad_right(s, 8, ' '), format!("{s:<8}"));
        assert_eq!(pad_right(s, 8, '.'), format!("{s:.<8}"));
        assert_eq!(pad_left(s, 8), format!("{s:>8}"));
    }
}

#[test]
fn bytes_are_counted_as_in_utf8() {
    for s in ["abc", "é", "€uro", "🟢x"] {
        let x = chars_of(s);
        assert!(longer_than(&x, s.len() - 1));
        assert!(!longer_than(&x, s.len()));
        for from in 0..=s.len() {
            for to in from..=s.len() + 1 {
                assert_eq!(slice_bytes(&x, from, to), s.get(from..to).map(|t| t.to_string()));
            }
        }
    }
}

#[test]
fn truncation() {
    assert_eq!(truncate("short", 8), "short");
    assert_eq!(truncate("exactly8", 8), "exactly8");
    assert_eq!(truncate("much longer", 8), "much lo…");
    assert!(truncatable("much longer", 8));
    // The cut would fall into the middle of a character.
    assert!(!truncatable("aaaaaaé long", 8));
    assert!(truncatable("aaaaaéx long", 8));
    assert_eq!(truncate("ab", 0), "…");
}

#[test]
fn order_follows_std() {
    let words = ["b", "a", "", "ab", "é", "z", "a", "b", "𝄞", "\u{ffff}"];
    for a in words {
        for b in words {
            assert_eq!(precedes(a, b), a < b, "{a:?} {b:?}");
        }
    }
    let mut want = list(&words);
    want.sort();
    want.dedup();
    assert_eq!(sort_dedup(&list(&words)), want);
}

#[test]
fn lists_in_another_order() {
    assert_eq!(reversed(vec![1, 2, 3]), vec![3, 2, 1]);
    assert_eq!(sort_order(&vec![5, 3, 5, 1]), vec![3, 1, 0, 2]);
    assert_eq!(sort_order(&vec![]), Vec::<usize>::new());
    assert_eq!(sort_order(&vec![-1, -5, 0, -5]), vec![1, 3, 0, 2]);
}

// ── sizes ────────────────────────────────────────────────────────────────────

fn float_words(b: u64) -> String {
    if b >= 1_073_741_824 {
        format!("{:.1} GB", b as f64 / 1_073_741_824.0)
    } else if b >= 1_048_576 {
        format!("{:.0} MB", b as f64 / 1_048_576.0)
    } else if b >= 1024 {
        format!("{:.0} KB", b as f64 / 1024.0)
    } else {
        format!("{b} B")
    }
}

#[test]
fn sizes_in_words() {
    assert_eq!(fmt_bytes(0), "0 B");
    assert_eq!(fmt_bytes(1023), "1023 B");
    assert_eq!(fmt_bytes(1024), "1 KB");
    assert_eq!(fmt_bytes(1536), "2 KB");
    assert_eq!(fmt_bytes(2560), "2 KB");
    assert_eq!(fmt_bytes(524_288_000), "500 MB");
    assert_eq!(fmt_bytes(1_073_741_824), "1.0 GB");
    assert_eq!(fmt_bytes(1_610_612_736), "1.5 GB");
}

#[test]
fn sizes_are_rounded_as_floats_are() {
    let mut b: u64 = 1;
    while b < u64::MAX / 3 {
        for d in [0u64, 1, 2, 3, 511, 512, 513] {
            let x = b.saturating_add(d);
            assert_eq!(fmt_bytes(x), float_words(x), "{x}");
            let y = b.saturating_sub(d);
            assert_eq!(fmt_bytes(y), float_words(y), "{y}");
        }
        b = b * 3 / 2 + 1;
    }
    for k in 0..2000u64 {
        let x = 1_073_741_824 + k * 53_687_091;
        assert_eq!(fmt_bytes(x), float_words(x), "{x}");
        let h = 1_048_576 * k + 524_288;
        assert_eq!(fmt_bytes(h), float_words(h), "{h}");
    }
    for x in [u64::MAX, u64::MAX - 1, 1 << 53, (1 << 53) + 1, (1 << 60) + 77] {
        assert_eq!(fmt_bytes(x), float_words(x), "{x}");
    }
}

// ── dates ────────────────────────────────────────────────────────────────────

#[test]
fn days_of_the_calendar() {
    // The count is taken from a fixed point, so differences are what matters.
    let d = |y: u64, m: u64, d: u64| days_from_ymd(y, m, d);
    assert_eq!(d(2024, 3, 1) - d(2024, 2, 28), 2);
    assert_eq!(d(2023, 3, 1) - d(2023, 2, 28), 1);
    assert_eq!(d(2024, 1, 1) - d(2023, 12, 31), 1);
    assert_eq!(d(2025, 1, 1) - d(2024, 1, 1), 366);
    assert_eq!(d(2001, 1, 1) - d(2000, 1, 1), 366);
    assert!(days_in_range(1970, 1, 1));
    assert_eq!(days_from_ymd(1970, 1, 1), 0);
    assert!(!days_in_range(0, 1, 1));
    assert!(!days_in_range(u64::MAX, 12, 31));
}

#[test]
fn dates_of_mdls() {
    let base = days_from_ymd(2024, 11, 3) * 86400 + 14 * 3600 + 15 * 60;
    assert_eq!(parse_mdls_date("2024-11-03 14:15:00 +0000"), Some(base));
    assert_eq!(parse_mdls_date("  2024-11-03 14:15:07 -0500 "), Some(base + 7));
    assert_eq!(parse_mdls_date("2024-11-03 14:15:07"), Some(base + 7));
    assert_eq!(parse_mdls_date("2024-11-03"), None);
    assert_eq!(parse_mdls_date("2024-11 14:15:00"), None);
    assert_eq!(parse_mdls_date("2024-xx-03 14:15:00"), None);
    assert!(mdls_date_in_range("2024-11-03 14:15:00 +0000"));
    assert!(!mdls_date_in_range("0-01-01 00:00:00"));
    assert_eq!(mdls_date("(null)"), None);
    assert_eq!(mdls_date(" \n"), None);
    assert_eq!(mdls_date("2024-11-03 14:15:00 +0000\n"), Some(base));
    assert!(mdls_reply_in_range("(null)"));
}

#[test]
fn access_times() {
    assert_eq!(atime("1700000000\n"), Some(1_700_000_000));
    assert_eq!(atime("never"), None);
    assert!(atime_in_range("9223372036854775807"));
    assert!(!atime_in_range("9223372036854775808"));
    assert!(atime_in_range("99999999999999999999"));
}

#[test]
fn moments_of_snapshots() {
    let base = days_from_ymd(2024, 11, 3) * 86400 + 14 * 3600 + 15 * 60;
    assert_eq!(parse_snapshot_ts("com.apple.TimeMachine.2024-11-03-141500"), Some(base));
    assert_eq!(parse_snapshot_ts("com.apple.TimeMachine.2024-11-03-141507"), Some(base + 7));
    assert_eq!(parse_snapshot_ts("com.apple.TimeMachine.2024-11-03-1415"), Some(base));
    assert_eq!(parse_snapshot_ts("com.apple.TimeMachine.2024-11-03"), None);
    assert_eq!(parse_snapshot_ts("nodot"), None);
    assert_eq!(parse_snapshot_ts("com.apple.TimeMachine.20x4-11-03-141500"), None);
    assert!(snapshot_ts_in_range("com.apple.TimeMachine.2024-11-03-141500"));
    assert!(!snapshot_ts_in_range("com.apple.TimeMachine.0000-01-01-000000"));
    // A cut in the middle of a character.
    assert!(!snapshot_ts_in_range("x.202é-11-03-141500"));
}

// ── points in time ───────────────────────────────────────────────────────────

#[test]
fn elapsed_time_is_counted_in_full_seconds() {
    let a = Stamp { secs: 10, nanos: 500 };
    let b = Stamp { secs: 12, nanos: 400 };
    assert_eq!(b.elapsed_since(a), Some(1));
    assert_eq!(a.elapsed_since(b), None);
    assert_eq!(a.elapsed_since(a), Some(0));
    assert!(b.not_before(a) && !a.not_before(b) && a.not_before(a));
}

#[test]
fn going_back_stops_at_the_range() {
    let now = Stamp { secs: 100, nanos: 7 };
    assert_eq!(now.back(40), Stamp { secs: 60, nanos: 7 });
    assert_eq!(now.back(400), Stamp { secs: -300, nanos: 7 });
    assert_eq!(Stamp { secs: i64::MIN, nanos: 1 }.back(1), Stamp { secs: 0, nanos: 0 });
    assert_eq!(Stamp { secs: -3, nanos: 0 }.unix_secs(), 0);
    assert_eq!(Stamp::at(5).unix_secs(), 5);
}

#[test]
fn what_is_due_stays_due() {
    let last = Stamp { secs: 100, nanos: 0 };
    assert!(!is_due(last, last, 1));
    assert!(is_due(last, last, 0));
    assert!(is_due(Stamp { secs: 160, nanos: 0 }, last, 60));
    assert!(is_due(Stamp { secs: 161, nanos: 0 }, last, 60));
    assert!(!is_due(Stamp { secs: 50, nanos: 0 }, last, 60));
    assert_eq!(days(2), 172_800);
    assert_eq!(hours(2), 7200);
}

// ── paths ────────────────────────────────────────────────────────────────────

#[test]
fn paths_follow_std() {
    for p in ["/a/b.txt", "/a/.hidden", "/a/b.tar.gz", "/", "a/..", "a/.", "a//b/", ".", "..", "b.", ""] {
        let q = Path::new(p);
        let name = q.file_name().map(|x| x.to_string_lossy().into_owned());
        let stem = q.file_stem().map(|x| x.to_string_lossy().into_owned());
        let ext = q.extension().map(|x| x.to_string_lossy().into_owned());
        assert_eq!(file_name(p), name, "{p:?}");
        assert_eq!(file_stem(p), stem, "{p:?}");
        assert_eq!(extension(p), ext, "{p:?}");
    }
    for (a, b) in [("/a", "b"), ("/a/", "b"), ("/a", "/b"), ("", "b"), ("/a", "")] {
        assert_eq!(join(a, b), Path::new(a).join(b).to_string_lossy(), "{a:?} {b:?}");
    }
}

#[test]
fn names_are_taken_apart() {
    assert_eq!(name_stem("a.b.c"), "a.b");
    assert_eq!(name_ext("a.b.c"), Some("c".to_string()));
    assert_eq!(name_stem(".bashrc"), ".bashrc");
    assert_eq!(name_ext(".bashrc"), None);
    assert!(has_extension("/x/y.app", "app") && !has_extension("/x/app", "app"));
    assert_eq!(home_join("/Users/u", "Library"), "/Users/u/Library");
}

#[test]
fn bytes_add_up() {
    assert_eq!(total(&vec![]), Some(0));
    assert_eq!(total(&vec![5, 0, 7]), Some(12));
    assert_eq!(total(&vec![u64::MAX, 0]), Some(u64::MAX));
    assert_eq!(total(&vec![u64::MAX, 1]), None);
}
