use oneclient_app::accounts::{
    account_row_at, add_bar, after_offline_answer, confirm_offline, has_microsoft, is_expired_at, kind_label, offline_name, request_error, uuid_preview, Account, AccountKind,
    Instant, OfflineDialog, RequestState,
};
use oneclient_app::people::{
    can_create_group, empty_hint, friend_note, friend_request_target, request_actions, tab_counts,
    GroupPicks, PeopleTab, RequestActions,
};

fn account(id: u128, kind: AccountKind, secs: i64) -> Account {
    Account {
        id,
        username: format!("player{id}"),
        kind,
        expires: Instant { secs, nanos: 0 },
    }
}

fn at(secs: i64, nanos: u32) -> Instant {
    Instant { secs, nanos }
}

#[test]
fn a_microsoft_sign_in_expires_at_its_expiry() {
    let a = account(1, AccountKind::Microsoft, 1_000);
    assert!(!is_expired_at(&a, at(999, 999_999_999)));
    assert!(is_expired_at(&a, at(1_000, 0)));
    assert!(is_expired_at(&a, at(2_000, 5)));
}

#[test]
fn an_offline_account_never_expires() {
    let a = account(2, AccountKind::Offline, 0);
    assert!(!is_expired_at(&a, at(i64::MAX, 0)));
}

#[test]
fn an_expiry_long_past_has_expired_now() {
    let a = account(3, AccountKind::Microsoft, 1);
    assert!(is_expired_at(&a, at(1_700_000_000, 0)));
    let b = account(4, AccountKind::Microsoft, i64::MAX);
    assert!(!is_expired_at(&b, at(1_700_000_000, 0)));
}

#[test]
fn account_rows() {
    let a = account(7, AccountKind::Microsoft, 100);
    let row = account_row_at(&a, Some(7), at(50, 0));
    assert!(row.is_default && !row.can_make_default);
    assert!(!row.expired && row.can_refresh);
    assert_eq!(row.kind_label, "Microsoft");

    let b = account(8, AccountKind::Offline, 0);
    let row = account_row_at(&b, Some(7), at(50, 0));
    assert!(!row.is_default && row.can_make_default);
    assert!(!row.can_refresh);
    assert_eq!(row.kind_label, "Offline");

    let row = account_row_at(&a, None, at(100, 0));
    assert!(!row.is_default && row.expired);
    assert_eq!(kind_label(AccountKind::Offline), "Offline");
}

#[test]
fn offline_accounts_need_a_microsoft_one() {
    let offline_only = vec![account(1, AccountKind::Offline, 0)];
    assert!(!has_microsoft(&offline_only));
    assert!(!has_microsoft(&Vec::new()));
    let both = vec![account(1, AccountKind::Offline, 0), account(2, AccountKind::Microsoft, 0)];
    assert!(has_microsoft(&both));

    let bar = add_bar(false, false);
    assert!(!bar.offline_enabled && bar.show_offline_hint);
    assert!(bar.microsoft_enabled);
    assert_eq!(bar.microsoft_label, "Add Microsoft");

    let bar = add_bar(true, true);
    assert!(bar.offline_enabled && !bar.show_offline_hint);
    assert!(!bar.microsoft_enabled);
    assert_eq!(bar.microsoft_label, "Signing in...");
}

#[test]
fn offline_names_are_trimmed_and_not_blank() {
    assert_eq!(offline_name("  Steve \t"), Some("Steve".to_string()));
    assert_eq!(offline_name("   "), None);
    assert_eq!(offline_name(""), None);
    assert_eq!(uuid_preview(None), "—");
    let u = "0f0e".to_string();
    assert_eq!(uuid_preview(Some(&u)), "0f0e");
}

#[test]
fn request_errors() {
    assert_eq!(request_error(&RequestState::Idle), None);
    let loading = RequestState::Loading { last_error: Some("offline".to_string()) };
    assert_eq!(request_error(&loading), Some("offline".to_string()));
    let done = RequestState::Settled { error: None };
    assert_eq!(request_error(&done), None);
    let failed = RequestState::Settled { error: Some("denied".to_string()) };
    assert_eq!(request_error(&failed), Some("denied".to_string()));
}

fn dialog(closing: bool, name: &str) -> OfflineDialog {
    OfflineDialog { open: true, closing, username: name.to_string() }
}

#[test]
fn the_offline_dialog_closes_only_on_success() {
    let (d, name) = confirm_offline(dialog(false, " Alex "));
    assert_eq!(name, Some("Alex".to_string()));
    assert!(d.open && d.closing);
    assert_eq!(d.username, " Alex ");

    let waiting = after_offline_answer(dialog(true, "Alex"), None);
    assert!(waiting.open && waiting.closing);

    let ok = after_offline_answer(dialog(true, "Alex"), Some(true));
    assert!(!ok.open && !ok.closing && ok.username.is_empty());

    let failed = after_offline_answer(dialog(true, "Alex"), Some(false));
    assert!(failed.open && !failed.closing);
    assert_eq!(failed.username, "Alex");

    let idle = after_offline_answer(dialog(false, "Alex"), Some(true));
    assert!(idle.open && !idle.closing);

    let (blank, none) = confirm_offline(dialog(false, "  "));
    assert_eq!(none, None);
    assert!(!blank.closing);
}

#[test]
fn people_tab_counts() {
    let (friends, requests, blocked) = tab_counts(3, 2, 5, 0);
    assert_eq!(friends, "3");
    assert_eq!(requests, "7");
    assert_eq!(blocked, "0");
}

#[test]
fn friend_requests_go_to_the_trimmed_name() {
    assert_eq!(friend_request_target(" notch "), Some("notch".to_string()));
    assert_eq!(friend_request_target(" "), None);
    assert_eq!(friend_note(true), Some("Best friend"));
    assert_eq!(friend_note(false), None);
    assert_eq!(request_actions(true), RequestActions::AcceptOrDecline);
    assert_eq!(request_actions(false), RequestActions::Cancel);
    assert_eq!(empty_hint(PeopleTab::Requests), "No pending friend requests.");
    assert_eq!(empty_hint(PeopleTab::Blocked), "Nobody is blocked.");
    assert_eq!(empty_hint(PeopleTab::Friends), "No friends yet. Add one by username above.");
}

#[test]
fn picking_a_member_twice_unpicks_them() {
    let mut picks = GroupPicks::new();
    picks.toggle(10);
    picks.toggle(20);
    assert_eq!(picks.members, vec![10, 20]);
    picks.toggle(10);
    assert_eq!(picks.members, vec![20]);
    picks.toggle(10);
    picks.toggle(10);
    assert_eq!(picks.members, vec![20]);
}

#[test]
fn a_group_needs_a_name_and_a_member() {
    assert!(can_create_group("Builders", 1));
    assert!(!can_create_group("  ", 3));
    assert!(!can_create_group("Builders", 0));
}
