use oneclient_app::debug::{
    pinned_text, preview_index, progress_step, should_run_sql, split_csv, sql_message,
    update_notice_text, SqlOutcome, UpdateSummary,
};

#[test]
fn comma_separated_items_are_trimmed_and_blank_ones_dropped() {
    assert_eq!(split_csv(" a, b ,,c ,"), ["a", "b", "c"]);
    assert!(split_csv("").is_empty());
    assert!(split_csv(" , ").is_empty());
    assert_eq!(split_csv("one"), ["one"]);
}

fn summary(name: &str, total: usize) -> UpdateSummary {
    UpdateSummary { cluster_name: name.to_string(), total }
}

#[test]
fn update_notices() {
    assert_eq!(update_notice_text(&Vec::new()), None);
    assert_eq!(
        update_notice_text(&vec![summary("Survival", 1)]),
        Some(("Cluster updated", "1 package changed in Survival".to_string()))
    );
    assert_eq!(
        update_notice_text(&vec![summary("Survival", 3)]),
        Some(("Cluster updated", "3 packages changed in Survival".to_string()))
    );
    assert_eq!(
        update_notice_text(&vec![summary("A", 2), summary("B", 5)]),
        Some(("Mods updated", "7 packages updated across 2 clusters".to_string()))
    );
}

#[test]
fn progress_stops_at_one_hundred() {
    assert_eq!(progress_step(0), 10);
    assert_eq!(progress_step(85), 95);
    assert_eq!(progress_step(90), 100);
    assert_eq!(progress_step(100), 100);
}

#[test]
fn the_sql_console() {
    assert!(should_run_sql(false, "select 1"));
    assert!(!should_run_sql(true, "select 1"));
    assert!(!should_run_sql(false, "  "));
    assert_eq!(sql_message(&SqlOutcome::NotRun), "No query run yet.");
    assert_eq!(sql_message(&SqlOutcome::Failed("no such table".to_string())), "no such table");
    assert_eq!(sql_message(&SqlOutcome::Affected(4)), "OK, 4 row(s) affected.");
    assert_eq!(sql_message(&SqlOutcome::Rows { columns: 0, rows: 0 }), "0 rows returned.");
    assert_eq!(sql_message(&SqlOutcome::Rows { columns: 2, rows: 12 }), "12 row(s)");
}

#[test]
fn simulator_texts() {
    assert!(pinned_text(true).starts_with("Pinned."));
    assert_eq!(pinned_text(false), "Not pinned; showing the real probe result.");
    assert_eq!(preview_index(2, 5), 2);
    assert_eq!(preview_index(9, 5), 4);
    assert_eq!(preview_index(0, 1), 0);
}
