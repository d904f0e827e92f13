use null_bbs::session::util::{
    default_banner, fmt_elapsed, fmt_short, fmt_time, format_short, format_time, pad, split_cmd, width, LocalTime,
};

#[test]
fn commands() {
    assert_eq!(split_cmd(" re 12 "), ("RE".into(), "12".into()));
    assert_eq!(split_cmd("R12"), ("R".into(), "12".into()));
    assert_eq!(split_cmd("12"), ("12".into(), "".into()));
    assert_eq!(split_cmd("t goroman やあ"), ("T".into(), "goroman やあ".into()));
}

#[test]
fn padding() {
    assert_eq!(pad("あいう", 5), "あい ");
    assert_eq!(pad("ab", 4), "ab  ");
}

#[test]
fn more_commands() {
    assert_eq!(split_cmd(""), ("".into(), "".into()));
    assert_eq!(split_cmd("a1b"), ("A".into(), "1b".into()));
    assert_eq!(split_cmd("1a"), ("1A".into(), "".into()));
    assert_eq!(split_cmd("bbs"), ("BBS".into(), "".into()));
    assert_eq!(split_cmd("w   x  y "), ("W".into(), "x  y".into()));
}

#[test]
fn widths_and_padding_edges() {
    assert_eq!(width("abc"), 3);
    assert_eq!(width("あ"), 2);
    assert_eq!(pad("", 3), "   ");
    assert_eq!(pad("abcdef", 3), "abc");
    assert_eq!(pad("aあ", 2), "a ");
}

#[test]
fn banner() {
    assert_eq!(default_banner("BBS"), "\n===========\n    BBS\n===========\nパソコン通信ホスト局へようこそ。\n\n");
}

#[test]
fn elapsed() {
    assert_eq!(fmt_elapsed(0), "00:00");
    assert_eq!(fmt_elapsed(754), "12:34");
    assert_eq!(fmt_elapsed(5025), "1:23:45");
    assert_eq!(fmt_elapsed(-5), "00:00");
    assert_eq!(fmt_elapsed(36000), "10:00:00");
}

#[test]
fn time_formats() {
    let t = LocalTime { year: 2026, month: 9, day: 25, hour: 14, minute: 10 };
    assert_eq!(format_time(&t), "2026/09/25 14:10");
    assert_eq!(format_short(&t), "09/25 14:10");
    let early = LocalTime { year: 7, month: 1, day: 2, hour: 3, minute: 4 };
    assert_eq!(format_time(&early), "0007/01/02 03:04");
    let late = LocalTime { year: 12345, month: 12, day: 31, hour: 23, minute: 59 };
    assert_eq!(format_time(&late), "+12345/12/31 23:59");
    let before = LocalTime { year: -1, month: 1, day: 1, hour: 0, minute: 0 };
    assert_eq!(format_time(&before), "-0001/01/01 00:00");
}

#[test]
fn clock_times_have_the_shape() {
    let s = fmt_time(1_790_000_000);
    assert_eq!(s.chars().count(), 16);
    assert_eq!(&s[4..5], "/");
    let s = fmt_short(1_790_000_000);
    assert_eq!(s.chars().count(), 11);
    assert_eq!(fmt_time(i64::MAX), "");
}

#[test]
fn times_shown_across_range() {
    for ts in [-8_000_000_000_000i64, -1, 0, 8_000_000_000_000] {
        assert_eq!(fmt_short(ts).chars().count(), 11);
        assert!(fmt_time(ts).chars().count() >= 16);
    }
}

#[test]
fn split_reads_trimmed_form() {
    for s in ["  re 12 ", "R12\t", " t goroman  やあ ", "", "   ", "ｑ"] {
        assert_eq!(split_cmd(s), split_cmd(s.trim()));
    }
}
