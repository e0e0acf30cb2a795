//! The accounts page: when a Microsoft sign-in has expired, what each row and
//! the add bar offer, and the offline-account dialog.
use vstd::prelude::*;

use crate::text::{trim, trimmed};

verus! {

/// How an account signs in.
#[derive(Clone, Copy, PartialEq, Eq, Debug, Structural)]
pub enum AccountKind {
    Microsoft,
    Offline,
}

pub open spec fn kind_text(kind: AccountKind) -> Seq<char> {
    match kind {
        AccountKind::Microsoft => "Microsoft"@,
        AccountKind::Offline => "Offline"@,
    }
}

/// The badge naming an account's kind.
pub fn kind_label(kind: AccountKind) -> (r: &'static str)
    ensures
        r@ == kind_text(kind),
{
    match kind {
        AccountKind::Microsoft => "Microsoft",
        AccountKind::Offline => "Offline",
    }
}

/// A moment in UTC: whole seconds since the Unix epoch and the nanoseconds
/// past them.
#[derive(Clone, Copy, PartialEq, Eq, Debug, Structural)]
pub struct Instant {
    pub secs: i64,
    pub nanos: u32,
}

/// `a` is not after `b`.
pub open spec fn not_after(a: Instant, b: Instant) -> bool {
    a.secs < b.secs || (a.secs == b.secs && a.nanos <= b.nanos)
}

/// A signed-in account.
pub struct Account {
    pub id: u128,
    pub username: String,
    pub kind: AccountKind,
    pub expires: Instant,
}

/// A Microsoft account's sign-in has expired once its expiry is not after
/// `now`; an offline account never expires.
pub open spec fn expired_at(kind: AccountKind, expires: Instant, now: Instant) -> bool {
    kind == AccountKind::Microsoft && not_after(expires, now)
}

pub fn is_expired_at(account: &Account, now: Instant) -> (r: bool)
    ensures
        r == expired_at(account.kind, account.expires, now),
{
    account.kind == AccountKind::Microsoft && (account.expires.secs < now.secs || (account.expires.secs
        == now.secs && account.expires.nanos <= now.nanos))
}

/// What a row of the account list shows and offers.
pub struct AccountRow {
    pub is_default: bool,
    pub expired: bool,
    /// Pressing the row makes it the default.
    pub can_make_default: bool,
    /// A Microsoft account can be refreshed.
    pub can_refresh: bool,
    pub kind_label: &'static str,
}

pub fn account_row_at(account: &Account, default_id: Option<u128>, now: Instant) -> (r: AccountRow)
    ensures
        r.is_default == (default_id == Some(account.id)),
        r.expired == expired_at(account.kind, account.expires, now),
        r.can_make_default == !r.is_default,
        r.can_refresh == (account.kind == AccountKind::Microsoft),
        r.kind_label@ == kind_text(account.kind),
{
    let is_default = match default_id {
        Some(id) => id == account.id,
        None => false,
    };
    AccountRow {
        is_default,
        expired: is_expired_at(account, now),
        can_make_default: !is_default,
        can_refresh: account.kind == AccountKind::Microsoft,
        kind_label: kind_label(account.kind),
    }
}

/// Some account signs in with Microsoft; offline accounts need one first.
pub fn has_microsoft(accounts: &Vec<Account>) -> (r: bool)
    ensures
        r == exists|k: int| 0 <= k < accounts@.len() && (#[trigger] accounts@[k]).kind == AccountKind::Microsoft,
{
    let mut i: usize = 0;
    while i < accounts.len()
        invariant
            i <= accounts@.len(),
            forall|k: int| 0 <= k < i ==> (#[trigger] accounts@[k]).kind != AccountKind::Microsoft,
        decreases accounts@.len() - i,
    {
        if accounts[i].kind == AccountKind::Microsoft {
            return true;
        }
        i = i + 1;
    }
    false
}

/// The bar above the account list.
pub struct AddBar {
    pub offline_enabled: bool,
    pub microsoft_enabled: bool,
    pub microsoft_label: &'static str,
    /// The note that offline accounts need a Microsoft account first.
    pub show_offline_hint: bool,
}

pub fn add_bar(has_microsoft: bool, microsoft_pending: bool) -> (r: AddBar)
    ensures
        r.offline_enabled == has_microsoft,
        r.microsoft_enabled == !microsoft_pending,
        r.microsoft_label@ == (if microsoft_pending {
            "Signing in..."@
        } else {
            "Add Microsoft"@
        }),
        r.show_offline_hint == !has_microsoft,
{
    AddBar {
        offline_enabled: has_microsoft,
        microsoft_enabled: !microsoft_pending,
        microsoft_label: if microsoft_pending {
            "Signing in..."
        } else {
            "Add Microsoft"
        },
        show_offline_hint: !has_microsoft,
    }
}

/// The name an offline account is added under: the typed name, trimmed;
/// nothing is added while it is blank.
pub fn offline_name(typed: &str) -> (r: Option<String>)
    ensures
        match r {
            Some(n) => n@ == trimmed(typed@) && n@.len() > 0,
            None => trimmed(typed@).len() == 0,
        },
{
    let t = trim(typed);
    if t.unicode_len() == 0 {
        None
    } else {
        Some(String::from_str(t))
    }
}

/// The UUID preview of the offline dialog, a dash until there is one.
pub fn uuid_preview(uuid: Option<&String>) -> (r: String)
    ensures
        r@ == match uuid {
            Some(u) => u@,
            None => "—"@,
        },
{
    match uuid {
        Some(u) => u.clone(),
        None => String::from_str("—"),
    }
}

/// Where a request to the launcher stands.
pub enum RequestState {
    Idle,
    /// Running again; `last_error` is the error of the previous run, if it
    /// failed.
    Loading { last_error: Option<String> },
    Settled { error: Option<String> },
}

/// The error a request shows: that of its last run, while it is running or
/// once it settled.
pub fn request_error(state: &RequestState) -> (r: Option<String>)
    ensures
        crate::domain::opt_view(r) == match state {
            RequestState::Idle => None,
            RequestState::Loading { last_error } => crate::domain::opt_view(*last_error),
            RequestState::Settled { error } => crate::domain::opt_view(*error),
        },
{
    match state {
        RequestState::Idle => None,
        RequestState::Loading { last_error } => crate::domain::copy_opt(last_error),
        RequestState::Settled { error } => crate::domain::copy_opt(error),
    }
}

/// The offline-account dialog.
pub struct OfflineDialog {
    pub open: bool,
    /// An account was requested and the dialog waits for the answer.
    pub closing: bool,
    pub username: String,
}

/// The dialog after the answer to an add-offline request: closed and
/// cleared when it succeeded, kept open when it failed, unchanged when no
/// answer is awaited or none came yet. `outcome` is `None` while unsettled,
/// else whether the request succeeded.
pub fn after_offline_answer(dialog: OfflineDialog, outcome: Option<bool>) -> (r: OfflineDialog)
    ensures
        !dialog.closing || outcome is None ==> r.open == dialog.open && r.closing == dialog.closing && r.username@
            == dialog.username@,
        dialog.closing && outcome == Some(true) ==> !r.open && !r.closing && r.username@.len() == 0,
        dialog.closing && outcome == Some(false) ==> r.open == dialog.open && !r.closing && r.username@
            == dialog.username@,
{
    if !dialog.closing {
        return dialog;
    }
    match outcome {
        Some(true) => OfflineDialog { open: false, closing: false, username: String::new() },
        Some(false) => OfflineDialog { open: dialog.open, closing: false, username: dialog.username },
        None => dialog,
    }
}

/// The dialog after the user confirmed: an account is requested, and the
/// dialog waits for the answer, unless the name is blank.
pub fn confirm_offline(dialog: OfflineDialog) -> (r: (OfflineDialog, Option<String>))
    ensures
        match r.1 {
            Some(n) => n@ == trimmed(dialog.username@) && n@.len() > 0 && r.0.closing,
            None => trimmed(dialog.username@).len() == 0 && r.0.closing == dialog.closing,
        },
        r.0.open == dialog.open,
        r.0.username@ == dialog.username@,
{
    match offline_name(dialog.username.as_str()) {
        Some(n) => (OfflineDialog { open: dialog.open, closing: true, username: dialog.username }, Some(n)),
        None => (dialog, None),
    }
}

} // verus!
