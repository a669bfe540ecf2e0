use selftop::report::{format_footer, format_row, format_time_span, screen_report, sorted_rows, ScreenRow};
use selftop::selftop::motionSniffer::MotionSniffer;
use selftop::selftop::windowSniffer::{Counter, Window, WindowSniffer};
use selftop::text::decimal_string;

fn counter(keys: u64, clicks: u64, motions: u64, timer: u64) -> Counter {
    Counter {
        keys,
        clicks,
        motionSniffer: MotionSniffer { last_event_time: 0, motion_count: motions },
        timer,
        enter_time: 0,
    }
}

fn window(name: &str, class: &[&str], pid: u32) -> Window {
    Window {
        wm_name: Some(name.to_string()),
        class: Some(class.iter().map(|c| c.to_string()).collect()),
        pid: Some(pid),
    }
}

fn expected_line(pid: u32, class: &str, wmname: &str, keys: u64, clicks: u64, motions: u64, time: &str, width: usize) -> String {
    let wmname_width = width - 5 - 20 - 5 - 5 - 5 - 9 - 7;
    format!(
        "{: <7$.7$} {: <8$.8$} {: <9$.9$} {: <10$.10$} {: <11$.11$} {: <12$.12$} {: <13$.13$}",
        pid, class, wmname, keys, clicks, motions, time, 5, 20, wmname_width, 5, 5, 5, 9
    )
}

#[test]
fn time_span_examples() {
    assert_eq!(format_time_span(0), "0h0m0s");
    assert_eq!(format_time_span(999), "0h0m0s");
    assert_eq!(format_time_span(59_999), "0h0m59s");
    assert_eq!(format_time_span(3_723_000), "1h2m3s");
    assert_eq!(format_time_span(86_400_000), "24h0m0s");
    assert_eq!(format_time_span(u64::MAX), format!("{}h{}m{}s", u64::MAX / 1000 / 3600, u64::MAX / 1000 % 3600 / 60, u64::MAX / 1000 % 60));
}

#[test]
fn decimal_examples() {
    assert_eq!(decimal_string(0), "0");
    assert_eq!(decimal_string(10), "10");
    assert_eq!(decimal_string(u64::MAX), u64::MAX.to_string());
}

#[test]
fn row_matches_the_column_layout() {
    let row = ScreenRow {
        pid: 4242,
        class: "Firefox".to_string(),
        wm_name: "A very long window title that will not fit at all".to_string(),
        keys: 123456,
        clicks: 7,
        motions: 0,
        timer: 3_723_000,
    };
    let line = format_row(&row, 80 - 56);
    assert_eq!(line, expected_line(4242, "Firefox", "A very long window title that will not fit at all", 123456, 7, 0, "1h2m3s", 80));
    assert_eq!(line.chars().count(), 80);
}

#[test]
fn row_cuts_by_characters() {
    let row = ScreenRow {
        pid: 1,
        class: "ééééééééééééééééééééééé".to_string(),
        wm_name: "ü".to_string(),
        keys: 1,
        clicks: 2,
        motions: 3,
        timer: 400_000_000_000,
    };
    let line = format_row(&row, 10);
    assert_eq!(line, expected_line(1, "ééééééééééééééééééééééé", "ü", 1, 2, 3, &format_time_span(400_000_000_000), 66));
}

#[test]
fn footer_text() {
    assert_eq!(format_footer(7_200_000, 3_600_000), "Total: 2h0m0s, shown: 1h0m0s, not shown: 1h0m0s");
    assert_eq!(format_footer(0, 0), "Total: 0h0m0s, shown: 0h0m0s, not shown: 0h0m0s");
}

#[test]
fn rows_are_sorted_longest_first_and_stable() {
    let entries = vec![
        (window("a", &["x", "ClassA"], 1), counter(1, 0, 0, 100)),
        (window("b", &["ClassB"], 2), counter(2, 0, 0, 300)),
        (window("c", &["ClassC"], 3), counter(3, 0, 0, 100)),
        (Window { wm_name: None, class: None, pid: None }, counter(4, 0, 0, 200)),
    ];
    let (rows, total) = sorted_rows(&entries);
    assert_eq!(total, 700);
    let order: Vec<u64> = rows.iter().map(|r| r.keys).collect();
    assert_eq!(order, vec![2, 4, 1, 3]);
    assert_eq!(rows[2].class, "ClassA");
    assert_eq!(rows[1].class, "");
    assert_eq!(rows[1].wm_name, "");
    assert_eq!(rows[1].pid, 0);
}

#[test]
fn screen_shows_what_fits() {
    let mut s = WindowSniffer::new();
    s.windows = vec![
        (window("a", &["A"], 1), counter(1, 1, 1, 60_000)),
        (window("b", &["B"], 2), counter(2, 2, 2, 120_000)),
        (window("c", &["C"], 3), counter(3, 3, 3, 30_000)),
    ];
    let r = screen_report(&s, 60, 3);
    assert_eq!(r.lines.len(), 2);
    assert_eq!(r.lines[0], expected_line(2, "B", "b", 2, 2, 2, "0h2m0s", 60));
    assert_eq!(r.lines[1], expected_line(1, "A", "a", 1, 1, 1, "0h1m0s", 60));
    assert_eq!(r.footer, "Total: 0h3m30s, shown: 0h3m0s, not shown: 0h0m30s");

    let all = screen_report(&s, 100, 40);
    assert_eq!(all.lines.len(), 3);
    assert_eq!(all.footer, "Total: 0h3m30s, shown: 0h3m30s, not shown: 0h0m0s");

    let tiny = screen_report(&s, 56, 0);
    assert_eq!(tiny.lines.len(), 1);
    assert_eq!(tiny.lines[0], expected_line(2, "B", "b", 2, 2, 2, "0h2m0s", 56));
}

#[test]
fn empty_screen_has_only_footer() {
    let s = WindowSniffer::new();
    let r = screen_report(&s, 80, 24);
    assert!(r.lines.is_empty());
    assert_eq!(r.footer, "Total: 0h0m0s, shown: 0h0m0s, not shown: 0h0m0s");
}
