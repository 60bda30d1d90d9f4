use kusage::aggregate::Status;
use kusage::render::{bar, render, Dashboard, DayLine, GroupLine, HeaderView, RecentLine};
use kusage::style::{bold, dim, paint, Color, ColorMode, Palette};
use kusage::summary::Summary;
use kusage::text::{decimal, truncate};
use kusage::timestamp::{format_day, parse_ts};
use kusage::output::{status_str, when_text};

fn julian(text: &str) -> i32 {
    parse_ts(text).unwrap().julian_day
}

fn sample(first: i32, last: i32) -> Dashboard {
    Dashboard {
        header: HeaderView {
            summary: Summary {
                sessions: 12,
                turns: 178,
                requests: 917,
                tool_uses: 812,
                input_tokens: 0,
                output_tokens: 0,
                first_day: Some(first),
                last_day: Some(last),
            },
            credits_text: "1.7k".to_string(),
            latest_filled: 4,
            latest_text: "223".to_string(),
        },
        by_model: vec![
            GroupLine {
                label: "opus-4.8".to_string(),
                credits_text: "1.7k".to_string(),
                pct_text: " 98.1%".to_string(),
                pct_color: Palette::red(),
                filled: 16,
            },
            GroupLine {
                label: "a-very-long-model-name-that-overflows".to_string(),
                credits_text: "0.9".to_string(),
                pct_text: "  0.1%".to_string(),
                pct_color: Palette::green(),
                filled: 0,
            },
        ],
        by_project: vec![],
        by_day: vec![DayLine { day: first, filled: 2, credits_text: "92.5".to_string(), sessions: 2 }],
        recent: vec![
            RecentLine {
                status: Status::Completed,
                title: "add pagination\nto the users endpoint".to_string(),
                credits_text: "21.4".to_string(),
                delta: Some(("+12%".to_string(), Palette::red())),
            },
            RecentLine {
                status: Status::Error,
                title: "migrate".to_string(),
                credits_text: "1.2".to_string(),
                delta: None,
            },
        ],
    }
}

/// The plain dashboard, written out with the format strings the layout follows.
fn expected_plain(d: &Dashboard) -> String {
    let mut out = String::new();
    let s = &d.header.summary;
    out.push_str("kusage  Kiro CLI usage\n");
    out.push_str(&format!(
        "{}  →  {}\n",
        format_day(s.first_day.unwrap()),
        format_day(s.last_day.unwrap())
    ));
    out.push('\n');
    out.push_str(&format!("  {:<10}{:>8}    {:<10}{:>8}\n", "Sessions", s.sessions, "Turns", s.turns));
    out.push_str(&format!("  {:<10}{:>8}    {:<10}{:>8}\n", "Requests", s.requests, "Tool uses", s.tool_uses));
    out.push_str(&format!("  {:<10}{:>8}\n", "Credits", d.header.credits_text));
    out.push_str(&format!("  {:<10}{} {}\n", "Latest", "████░░░░░░░░░░░░", "223 of peak day"));
    out.push_str("  Tokens     n/a (not reported by Kiro)\n\n");
    let section = |title: &str| {
        let label = format!("── {title} ");
        let pad = 72usize.saturating_sub(label.chars().count());
        format!("{label}{}\n", "─".repeat(pad))
    };
    out.push_str(&section("By Model"));
    out.push_str(&format!(
        "  {:>2}. {:<22} {:>7} {} {}\n",
        1, "opus-4.8", "1.7k", " 98.1%", "████████████████"
    ));
    out.push_str(&format!(
        "  {:>2}. {:<22} {:>7} {} {}\n",
        2, "a-very-long-model-nam…", "0.9", "  0.1%", "░░░░░░░░░░░░░░░░"
    ));
    out.push('\n');
    out.push_str(&section("By Project"));
    out.push_str("  (no data)\n\n");
    out.push_str(&section("By Day"));
    out.push_str(&format!(
        "  {}  {} {:>7}  {}\n",
        format_day(s.first_day.unwrap()),
        "██░░░░░░░░░░░░░░",
        "92.5",
        "2 sess"
    ));
    out.push('\n');
    out.push_str(&section("Recent Sessions"));
    out.push_str(&format!(
        "  {:>2}. {} {:<38} {} {:>6}\n",
        1, '✓', "add pagination to the users endpoint", format!("{:>7}", "21.4"), "+12%"
    ));
    out.push_str(&format!(
        "  {:>2}. {} {:<38} {} {:>6}\n",
        2, '✗', "migrate", format!("{:>7}", "1.2"), "  ·"
    ));
    out.push_str(&"─".repeat(72));
    out.push('\n');
    out
}

#[test]
fn plain_dashboard_matches_its_layout() {
    let d = sample(julian("2026-06-29T00:00:00Z"), julian("2026-07-03T00:00:00Z"));
    assert!(d.days_printable());
    assert_eq!(render(&d, ColorMode::Plain), expected_plain(&d));
}

#[test]
fn colored_dashboard_has_banner_and_escapes() {
    let d = sample(julian("2026-06-29T00:00:00Z"), julian("2026-07-03T00:00:00Z"));
    let out = render(&d, ColorMode::Ansi16);
    assert!(out.starts_with("\x1b[36m _\x1b[0m\n"));
    assert!(out.contains("\x1b[2mKiro CLI usage\x1b[0m\n"));
    assert!(out.contains("\x1b[1m  Credits       1.7k\x1b[0m\n"));
    assert!(out.contains("\x1b[32m✓\x1b[0m"));
    assert!(out.contains("\x1b[31m✗\x1b[0m"));
    assert!(!out.contains("kusage  Kiro CLI usage"));
    let true_color = render(&d, ColorMode::True);
    assert!(true_color.contains("\x1b[38;2;120;200;200m _\x1b[0m"));
}

#[test]
fn escape_sequences_by_mode() {
    let c = Color::new(1, 22, 255, 31);
    assert_eq!(paint(ColorMode::Plain, c, "x"), "x");
    assert_eq!(paint(ColorMode::Ansi16, c, "x"), "\x1b[31mx\x1b[0m");
    assert_eq!(paint(ColorMode::True, c, "x"), "\x1b[38;2;1;22;255mx\x1b[0m");
    assert_eq!(bold(ColorMode::Plain, "b"), "b");
    assert_eq!(bold(ColorMode::Ansi16, "b"), "\x1b[1mb\x1b[0m");
    assert_eq!(dim(ColorMode::True, "d"), "\x1b[2md\x1b[0m");
    assert_eq!(dim(ColorMode::Plain, "d"), "d");
}

#[test]
fn color_mode_detection() {
    assert_eq!(ColorMode::detect(true, false, true, Some("truecolor")), ColorMode::Plain);
    assert_eq!(ColorMode::detect(false, true, true, None), ColorMode::Plain);
    assert_eq!(ColorMode::detect(false, false, false, None), ColorMode::Plain);
    assert_eq!(ColorMode::detect(false, false, true, Some("truecolor")), ColorMode::True);
    assert_eq!(ColorMode::detect(false, false, true, Some("24bit")), ColorMode::True);
    assert_eq!(ColorMode::detect(false, false, true, Some("256")), ColorMode::Ansi16);
    assert_eq!(ColorMode::detect(false, false, true, None), ColorMode::Ansi16);
}

#[test]
fn bars_clamp_their_fill() {
    assert_eq!(bar(3, 5, Palette::blue(), ColorMode::Plain), "███░░");
    assert_eq!(bar(9, 4, Palette::blue(), ColorMode::Plain), "████");
    assert_eq!(bar(0, 3, Palette::blue(), ColorMode::Ansi16), "\x1b[34m░░░\x1b[0m");
}

#[test]
fn truncation_and_numbers() {
    assert_eq!(truncate("short", 10), "short");
    assert_eq!(truncate("exactly10!", 10), "exactly10!");
    assert_eq!(truncate("eleven chars", 10), "eleven ch…");
    assert_eq!(truncate("a\r\nb", 10), "a  b");
    assert_eq!(truncate("abc", 1), "…");
    assert_eq!(truncate("abc", 0), "");
    assert_eq!(truncate("", 0), "");
    assert_eq!(decimal(0), "0");
    assert_eq!(decimal(1234567890), "1234567890");
    assert_eq!(decimal(u64::MAX), u64::MAX.to_string());
}

#[test]
fn dates_print_as_time_prints_them() {
    assert_eq!(format_day(2451545), "2000-01-01");
    assert_eq!(format_day(julian("2026-07-03T23:59:59Z")), "2026-07-03");
    assert!(parse_ts("2026-07-02").is_none());
    let t = parse_ts("2026-07-02T18:38:27.469426Z").unwrap();
    assert_eq!(t.unix_nanos, 1_783_017_507_469_426_000);
    assert_eq!(t.offset_seconds, 0);
}

#[test]
fn plain_dashboard_has_no_escape_codes() {
    let d = sample(julian("2026-06-29T00:00:00Z"), julian("2026-07-03T00:00:00Z"));
    let plain = render(&d, ColorMode::Plain);
    assert!(!plain.contains('\x1b'));
    assert!(!plain.contains(" _\n"));
    assert!(plain.starts_with("kusage  Kiro CLI usage\n"));
}

#[test]
fn printed_dates_use_digits_and_dashes() {
    for day in [-1930999, 0, 1721425, 2451545, 5373484] {
        let text = format_day(day);
        assert!(text.chars().all(|c| c.is_ascii_digit() || c == '-' || c == '+'), "{}", text);
    }
    assert_eq!(format_day(-1930999), "-9999-01-01");
    assert_eq!(format_day(5373484), "9999-12-31");
}

#[test]
fn timestamps_write_back_in_rfc3339() {
    let t = parse_ts("2026-07-02T18:38:27.469426Z").unwrap();
    assert_eq!(when_text(Some(t)).as_deref(), Some("2026-07-02T18:38:27.469426Z"));
    let t = parse_ts("2026-05-05T05:05:05+02:00").unwrap();
    assert_eq!(when_text(Some(t)).as_deref(), Some("2026-05-05T05:05:05+02:00"));
    let t = parse_ts("2026-01-01T00:00:00.500-07:30").unwrap();
    assert_eq!(when_text(Some(t)).as_deref(), Some("2026-01-01T00:00:00.5-07:30"));
    assert_eq!(when_text(None), None);
    assert_eq!(status_str(Status::Completed), "ok");
    assert_eq!(status_str(Status::Error), "error");
}
