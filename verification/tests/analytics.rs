use oneclient_app::analytics::{
    best_month_subtitle, continuous_series, daily_window, distribution,
    hour_subtitle, month_abbr, month_readout, monthly_series, peak_index, session_bucket,
    streak_value, weekday_full, weekday_subtitle, DayEntry, MonthEntry, Range,
};
use oneclient_app::servers::{
    bar_scale, display_address, joins_text, mask, order_desc, pie_slices, plural, row_address,
    server_icon_url, server_label, servers_subtitle, total_of, ServerStat,
};
use oneclient_app::text::signed_decimal_string;

#[test]
fn the_peak_is_the_last_largest_value_above_zero() {
    assert_eq!(peak_index(&vec![1, 5, 3, 5, 2]), Some(3));
    assert_eq!(peak_index(&vec![0, 0]), None);
    assert_eq!(peak_index(&vec![-4, -1]), None);
    assert_eq!(peak_index(&Vec::new()), None);
    assert_eq!(peak_index(&vec![7]), Some(0));
}

#[test]
fn sessions_fall_into_length_buckets() {
    assert_eq!(session_bucket(0), 0);
    assert_eq!(session_bucket(899), 0);
    assert_eq!(session_bucket(900), 1);
    assert_eq!(session_bucket(3599), 2);
    assert_eq!(session_bucket(3600), 3);
    assert_eq!(session_bucket(4 * 3600 - 1), 4);
    assert_eq!(session_bucket(i64::MAX), 5);
}

#[test]
fn the_session_length_card() {
    assert!(distribution(&vec![60], false).is_none());
    let d = distribution(&vec![60], true).unwrap();
    assert_eq!(d.counts, vec![1, 0, 0, 0, 0, 0]);
    let d = distribution(&vec![60, 1000, 1200, 20000], false).unwrap();
    assert_eq!(d.counts, vec![1, 2, 0, 0, 0, 1]);
    assert_eq!(d.peak, Some(1));
    assert_eq!(d.labels, vec!["<15m", "15m-30m", "30m-60m", "1h-2h", "2h-4h", "4h+"]);
    assert_eq!(d.subtitle, "4 sessions grouped by length");
    let empty = distribution(&Vec::new(), true).unwrap();
    assert_eq!(empty.peak, None);
}

#[test]
fn the_daily_chart_pages_newest_first() {
    assert_eq!(Range::Month.days(), 30);
    let w = daily_window(40, Range::TwoWeeks, 0, 0, None);
    assert_eq!((w.start, w.end, w.can_older, w.can_newer), (26, 40, true, false));
    let w = daily_window(40, Range::TwoWeeks, 1, 0, None);
    assert_eq!((w.start, w.end, w.can_older, w.can_newer), (12, 26, true, true));
    let w = daily_window(40, Range::TwoWeeks, 9, 0, None);
    assert_eq!((w.start, w.end, w.can_older, w.can_newer), (0, 12, false, true));
    let w = daily_window(0, Range::Quarter, 3, 0, None);
    assert_eq!((w.start, w.end), (0, 0));
}

#[test]
fn a_picked_range_is_kept_within_the_series() {
    let w = daily_window(40, Range::TwoWeeks, 0, 100, Some((105, 110)));
    assert_eq!((w.start, w.end, w.can_older, w.can_newer), (5, 11, false, false));
    let w = daily_window(40, Range::TwoWeeks, 0, 100, Some((90, 200)));
    assert_eq!((w.start, w.end), (0, 40));
    let w = daily_window(40, Range::TwoWeeks, 0, 100, Some((150, 120)));
    assert_eq!((w.start, w.end), (21, 21));
}

#[test]
fn the_daily_series_fills_gaps_up_to_today() {
    let entries = vec![
        DayEntry { day: Some(10), secs: 5 },
        DayEntry { day: None, secs: 99 },
        DayEntry { day: Some(12), secs: 7 },
        DayEntry { day: Some(10), secs: 6 },
    ];
    assert_eq!(continuous_series(&entries, 11), vec![(10, 6), (11, 0), (12, 7)]);
    assert_eq!(continuous_series(&entries, 14), vec![(10, 6), (11, 0), (12, 7), (13, 0), (14, 0)]);
    assert!(continuous_series(&vec![DayEntry { day: None, secs: 1 }], 5).is_empty());
}

#[test]
fn the_daily_series_reaches_today() {
    let series = continuous_series(&vec![DayEntry { day: Some(700_000), secs: 5 }], 700_003);
    assert_eq!(series, vec![(700_000, 5), (700_001, 0), (700_002, 0), (700_003, 0)]);
}

#[test]
fn months_are_summed_and_gaps_filled() {
    let entries = vec![
        MonthEntry { month: Some((2023, 11)), secs: 10 },
        MonthEntry { month: Some((2024, 1)), secs: 5 },
        MonthEntry { month: None, secs: 1000 },
        MonthEntry { month: Some((2023, 11)), secs: 3 },
    ];
    let series = monthly_series(&entries);
    assert_eq!(series, vec![(2023, 11, 13), (2024, 0, 0), (2024, 1, 5)]);
    assert_eq!(best_month_subtitle(&series), "Best month so far: Dec 2023");
    assert_eq!(best_month_subtitle(&vec![(2024, 0, 0)]), "No sessions recorded yet");
    assert!(monthly_series(&Vec::new()).is_empty());
}

#[test]
fn chart_labels() {
    assert_eq!(month_abbr(4), "May");
    assert_eq!(month_readout(-5, 0), "Jan -5");
    assert_eq!(weekday_full(6), "Sunday");
    assert_eq!(weekday_subtitle(Some(2)), "Every Wednesday you have played, added up");
    assert_eq!(weekday_subtitle(None), "Every — you have played, added up");
    assert_eq!(hour_subtitle(Some("9 PM")), "Every day's 9 PM hour, added up");
    assert_eq!(streak_value(12), "12d");
    assert_eq!(signed_decimal_string(i64::MIN), i64::MIN.to_string());
    assert_eq!(signed_decimal_string(-42), "-42");
    assert_eq!(signed_decimal_string(0), "0");
}

fn server(address: &str, port: Option<u16>, is_ip: bool, secs: i64) -> ServerStat {
    ServerStat { address: address.to_string(), port, is_ip, joins: 2, total_secs: secs }
}

#[test]
fn server_addresses_and_masks() {
    assert_eq!(display_address(&server("mc.hypixel.net", Some(25565), false, 0)), "mc.hypixel.net");
    assert_eq!(display_address(&server("play.x", Some(25570), false, 0)), "play.x:25570");
    assert_eq!(mask("1.2.3.4:25570"), "••••••• :25570".replace(' ', ""));
    assert_eq!(mask("10.0.0.1"), "••••••••");
    assert_eq!(mask("a"), "••••••");
    assert_eq!(mask(&"h".repeat(30)), "•".repeat(18));
    let ip = server("1.2.3.4", None, true, 0);
    assert_eq!(server_label(&ip), "Direct IP");
    assert_eq!(server_icon_url(&ip), None);
    assert_eq!(
        server_icon_url(&server("mc.x", None, false, 0)).as_deref(),
        Some("https://api.mcsrvstat.us/icon/mc.x")
    );
    assert_eq!(row_address(&ip, true), "1.2.3.4");
    assert_eq!(row_address(&ip, false), "•••••••");
    assert_eq!(joins_text(3), "3×");
}

#[test]
fn the_pie_shows_the_ten_longest_and_the_rest() {
    let servers: Vec<ServerStat> = (0..12).map(|i| server(&format!("s{i}"), None, false, (i % 4) * 10)).collect();
    let pie = pie_slices(&servers);
    assert_eq!(pie.values.len(), 11);
    assert_eq!(pie.values[0], 30);
    assert_eq!(pie.labels[0], "s3");
    assert_eq!(pie.labels[1], "s7");
    assert_eq!(pie.labels[10], "2 more");
    assert_eq!(pie.values[10], 0);
    let small = pie_slices(&vec![server("a", None, false, 1), server("b", None, false, 5)]);
    assert_eq!(small.labels, vec!["b", "a"]);
    assert_eq!(small.values, vec![5, 1]);
}

#[test]
fn ordering_and_totals() {
    assert_eq!(order_desc(&vec![3, 9, 3, 1]), vec![1, 0, 2, 3]);
    assert_eq!(total_of(&vec![4, -1, 7]), 10);
    assert_eq!(bar_scale(&Vec::new()), 1);
    assert_eq!(bar_scale(&vec![server("a", None, false, 40)]), 40);
    assert_eq!(plural(1), "");
    assert_eq!(plural(0), "s");
    assert_eq!(servers_subtitle(1, 3), "1 server · 3 joins");
    assert_eq!(servers_subtitle(2, 1), "2 servers · 1 join");
}
