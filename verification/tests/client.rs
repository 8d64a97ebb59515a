use notedock::api::{ApiErrorBody, CreateNoteRequest, ErrorCode, NoteSummary, SyncResponse};
use notedock::export::{export_allowed, next_attempt, LAST_NUMBERED};
use notedock::remote::{api_url, check_reply, note_path, sync_path, RemoteError};
use notedock::settings::{login_origin, web_client_url};
use notedock::store::{cursor_from, cursor_text, local_note, new_local_note, offline_note, pending_row, stale_ids, Pending};
use notedock::sync::{
    after_create, after_delete, after_list, after_page, initial_state, pass_start, pass_step, pull_continues,
    push_step, settle_forgets, settled, switches_server, Failure, PassAction, PassEvent, PassStart, PushStep,
    SyncState, SyncStatus, MAX_PAGES,
};
use notedock::window::{toggle_action, WindowAction};

fn summary(id: &str, title: &str, rev: i64) -> NoteSummary {
    NoteSummary {
        id: id.to_owned(),
        title: title.to_owned(),
        preview: String::new(),
        rev,
        updated_at: "2026-01-01T00:00:00.000Z".to_owned(),
        deleted: false,
    }
}

fn state() -> SyncState {
    SyncState {
        status: SyncStatus::Synced,
        message: None,
        pending: 2,
        logged_in: true,
        server_url: "http://nas:8080".to_owned(),
    }
}

#[test]
fn urls_are_prefix_and_path() {
    assert_eq!(api_url("http://nas:8080", "/notes"), "http://nas:8080/api/v1/notes");
    assert_eq!(note_path("abc"), "/notes/abc");
    assert_eq!(sync_path(0), "/sync?since=0");
    assert_eq!(sync_path(1234), "/sync?since=1234");
    assert_eq!(sync_path(-7), "/sync?since=-7");
}

#[test]
fn replies_map_to_remote_errors() {
    assert_eq!(check_reply(true, "200 OK", None), Ok(()));
    let expired = ApiErrorBody { code: ErrorCode::Unauthorized, message: "x".to_owned() };
    assert_eq!(check_reply(false, "401 Unauthorized", Some(expired)), Err(RemoteError::Unauthorized));
    let missing = ApiErrorBody { code: ErrorCode::NotFound, message: "no such note".to_owned() };
    assert_eq!(
        check_reply(false, "404 Not Found", Some(missing)),
        Err(RemoteError::Api { code: ErrorCode::NotFound, message: "no such note".to_owned() })
    );
    assert_eq!(
        check_reply(false, "502 Bad Gateway", None),
        Err(RemoteError::Api { code: ErrorCode::Internal, message: "服务器返回 502 Bad Gateway".to_owned() })
    );
}

#[test]
fn remote_errors_read_in_chinese() {
    assert_eq!(RemoteError::Offline.message(), "无法连接到服务器");
    assert_eq!(RemoteError::Unauthorized.message(), "登录已过期");
    let api = RemoteError::Api { code: ErrorCode::BadRequest, message: "坏了".to_owned() };
    assert_eq!(api.message(), "服务器返回错误：坏了");
    assert_eq!(RemoteError::Other("decode".to_owned()).message(), "decode");
}

#[test]
fn error_codes_use_snake_case() {
    assert_eq!(ErrorCode::BadRequest.as_str(), "bad_request");
    assert_eq!(ErrorCode::TooManyRequests.as_str(), "too_many_requests");
    assert_eq!(ErrorCode::Unauthorized.as_str(), "unauthorized");
}

#[test]
fn store_rows_become_notes() {
    let n = local_note("a".into(), "t".into(), "p".into(), 3, "now".into(), 1);
    assert!(n.dirty);
    assert_eq!(n.rev, 3);
    let clean = local_note("a".into(), "t".into(), "p".into(), 3, "now".into(), 0);
    assert!(!clean.dirty);
    let p = pending_row("b".into(), "u".into(), 0, 1);
    assert_eq!(p, Pending { id: "b".into(), title: "u".into(), rev: 0, deleted: true });
}

#[test]
fn an_offline_note_is_dirty_and_unrevised() {
    let n = offline_note("id-1".into(), "  离线新建 ", "t0".into());
    assert_eq!(n.title, "离线新建");
    assert_eq!(n.preview, "");
    assert_eq!(n.rev, 0);
    assert!(n.dirty);
    assert_eq!(n.updated_at, "t0");
}

#[test]
fn a_local_note_gets_a_fresh_uuid() {
    let a = new_local_note(" 会议 ", "t1".into());
    let b = new_local_note("会议", "t1".into());
    assert_eq!(a.title, "会议");
    assert_eq!(a.id.len(), 36);
    assert_ne!(a.id, b.id);
    assert_eq!(a.id.as_bytes()[14], b'7');
    assert!(b"89ab".contains(&a.id.as_bytes()[19]));
    for (i, c) in a.id.chars().enumerate() {
        if [8, 13, 18, 23].contains(&i) {
            assert_eq!(c, '-');
        } else {
            assert!(c.is_ascii_hexdigit() && !c.is_ascii_uppercase());
        }
    }
    assert!(a.dirty);
    assert_eq!(a.rev, 0);
}

#[test]
fn the_cursor_survives_a_round_trip() {
    for c in [0i64, 1, 42, -5, i64::MAX, i64::MIN] {
        assert_eq!(cursor_from(Some(cursor_text(c).as_str())), c);
    }
    assert_eq!(cursor_text(987), "987");
    assert_eq!(cursor_from(None), 0);
    assert_eq!(cursor_from(Some("garbage")), 0);
    assert_eq!(cursor_from(Some("")), 0);
}

#[test]
fn reconcile_drops_only_clean_rows_the_server_lacks() {
    let local = vec!["a".to_owned(), "b".to_owned(), "c".to_owned()];
    let server = vec![summary("b", "B", 1), summary("z", "Z", 1)];
    assert_eq!(stale_ids(&local, &server), vec!["a".to_owned(), "c".to_owned()]);
    assert!(stale_ids(&local, &vec![summary("a", "", 1), summary("b", "", 1), summary("c", "", 1)]).is_empty());
    assert_eq!(stale_ids(&local, &Vec::new()), local);
}

#[test]
fn push_creates_tombstones_or_forgets() {
    let created = Pending { id: "n1".into(), title: "离线新建".into(), rev: 0, deleted: false };
    assert_eq!(
        push_step(&created),
        PushStep::Create(CreateNoteRequest { id: Some("n1".into()), title: "离线新建".into() })
    );
    let uploaded_then_deleted = Pending { id: "n2".into(), title: "".into(), rev: 3, deleted: true };
    assert_eq!(push_step(&uploaded_then_deleted), PushStep::Delete("n2".into()));
    let never_uploaded = Pending { id: "n3".into(), title: "写了又不要了".into(), rev: 0, deleted: true };
    assert_eq!(push_step(&never_uploaded), PushStep::Forget("n3".into()));
}

#[test]
fn a_rejected_delete_counts_as_gone() {
    let not_found = RemoteError::Api { code: ErrorCode::NotFound, message: "no such note".into() };
    assert_eq!(after_delete(Err(not_found)), Ok(()));
    assert_eq!(after_delete(Ok(())), Ok(()));
    assert_eq!(after_delete(Err(RemoteError::Offline)), Err(Failure::Offline));
    assert_eq!(after_delete(Err(RemoteError::Unauthorized)), Err(Failure::Unauthorized));
    assert_eq!(after_delete(Err(RemoteError::Other("boom".into()))), Err(Failure::Message("boom".into())));
}

#[test]
fn create_and_page_replies_pass_through_or_fail() {
    let saved = summary("n1", "标题", 1);
    assert_eq!(after_create(Ok(saved.clone())), Ok(saved));
    let bad = RemoteError::Api { code: ErrorCode::BadRequest, message: "id 必须是 UUID".into() };
    assert_eq!(after_create(Err(bad)), Err(Failure::Message("服务器返回错误：id 必须是 UUID".into())));
    let page = SyncResponse { changes: vec![summary("a", "A", 2)], cursor: 9 };
    assert_eq!(after_page(Ok(page.clone())), Ok(page));
    assert_eq!(after_page(Err(RemoteError::Offline)), Err(Failure::Offline));
}

#[test]
fn failures_come_from_remote_and_local() {
    assert_eq!(Failure::from_local(), Failure::Message("本地数据库出错".into()));
    assert_eq!(Failure::from_remote(RemoteError::Unauthorized), Failure::Unauthorized);
}

#[test]
fn a_pass_without_credentials_signs_out_only_at_start() {
    assert_eq!(pass_start(true, true), PassStart::Sync);
    assert_eq!(pass_start(true, false), PassStart::Sync);
    assert_eq!(pass_start(false, true), PassStart::SignOut);
    assert_eq!(pass_start(false, false), PassStart::ShowOffline);
}

#[test]
fn the_first_pass_reconciles_before_showing_synced() {
    assert_eq!(pass_step(true, PassEvent::Synced), PassAction::ReconcileList);
    assert_eq!(pass_step(false, PassEvent::Synced), PassAction::ShowSynced);
    assert_eq!(pass_step(true, PassEvent::Reconciled), PassAction::ShowSynced);
    assert_eq!(pass_step(true, PassEvent::Failed(Failure::Offline)), PassAction::Settle(Failure::Offline));
    assert_eq!(
        pass_step(false, PassEvent::Failed(Failure::from_local())),
        PassAction::Settle(Failure::Message("本地数据库出错".into()))
    );
    let list = vec![summary("a", "A", 1)];
    assert_eq!(after_list(Ok(list.clone())), Ok(list));
    assert_eq!(after_list(Err(RemoteError::Unauthorized)), Err(Failure::Unauthorized));
}

#[test]
fn pulling_stops_on_an_empty_page_or_the_page_cap() {
    assert!(pull_continues(1, false));
    assert!(!pull_continues(1, true));
    assert!(!pull_continues(MAX_PAGES, false));
    assert!(pull_continues(MAX_PAGES - 1, false));
    assert_eq!(MAX_PAGES, 20);
}

#[test]
fn the_first_state_follows_the_settings() {
    let s = initial_state(true, "http://nas".into());
    assert_eq!(s.status, SyncStatus::Syncing);
    assert!(s.logged_in);
    assert_eq!(s.pending, 0);
    let s = initial_state(false, "".into());
    assert_eq!(s.status, SyncStatus::Offline);
    assert!(!s.logged_in);
}

#[test]
fn switching_servers_is_a_change_of_a_set_origin() {
    assert!(switches_server("http://a", "http://b"));
    assert!(!switches_server("http://a", "http://a"));
    assert!(!switches_server("", "http://b"));
}

#[test]
fn state_transitions() {
    let s = state().signed_out();
    assert!(!s.logged_in);
    assert_eq!(s.status, SyncStatus::Offline);
    let s = s.signed_in("http://other".into());
    assert!(s.logged_in);
    assert_eq!(s.server_url, "http://other");
    assert_eq!(s.status, SyncStatus::Syncing);
    assert_eq!(s.clone().with_pending(Some(7)).pending, 7);
    assert_eq!(s.clone().with_pending(None).pending, 2);
    assert_eq!(s.clone().offline().status, SyncStatus::Offline);
    let done = SyncState { message: Some("x".into()), ..s }.synced();
    assert_eq!(done.status, SyncStatus::Synced);
    assert_eq!(done.message, None);
    assert_eq!(done.syncing().status, SyncStatus::Syncing);
}

#[test]
fn an_expired_session_signs_out_with_a_message() {
    assert!(settle_forgets(&Failure::Unauthorized, false));
    let s = settled(state().signed_out(), Failure::Unauthorized, false);
    assert!(!s.logged_in);
    assert_eq!(s.status, SyncStatus::Offline);
    assert_eq!(s.message.as_deref(), Some("登录已过期，请重新登录"));
}

#[test]
fn a_failed_first_pass_returns_to_login() {
    assert!(settle_forgets(&Failure::Offline, true));
    let s = settled(state().signed_out(), Failure::Offline, true);
    assert!(!s.logged_in);
    assert_eq!(s.message.as_deref(), Some("无法连接服务器，请重新登录"));
    let s = settled(state().signed_out(), Failure::Message("本地数据库出错".into()), true);
    assert!(!s.logged_in);
    assert_eq!(s.message.as_deref(), Some("本地数据库出错"));
}

#[test]
fn a_later_drop_keeps_the_session() {
    assert!(!settle_forgets(&Failure::Offline, false));
    let s = settled(state(), Failure::Offline, false);
    assert!(s.logged_in);
    assert_eq!(s.status, SyncStatus::Offline);
    assert_eq!(s.message, None);
    assert_eq!(s.server_url, "http://nas:8080");
    let s = settled(state(), Failure::Message("坏了".into()), false);
    assert!(s.logged_in);
    assert_eq!(s.status, SyncStatus::Offline);
    assert_eq!(s.message.as_deref(), Some("坏了"));
}

#[test]
fn logging_in_needs_an_origin() {
    assert_eq!(login_origin(" nas.local:8080/ "), Ok("http://nas.local:8080".to_owned()));
    assert_eq!(login_origin("   "), Err("请填写服务器地址".to_owned()));
}

#[test]
fn exporting_needs_notes() {
    assert_eq!(export_allowed(0), Err("没有可导出的笔记".to_owned()));
    assert_eq!(export_allowed(3), Ok(()));
}

#[test]
fn the_web_client_needs_a_server() {
    assert_eq!(web_client_url(""), Err("尚未设置服务器地址".to_owned()));
    assert_eq!(web_client_url("http://nas:8080"), Ok("http://nas:8080".to_owned()));
}

#[test]
fn export_attempts_are_numbered_up_to_a_cap() {
    assert_eq!(next_attempt(1), Some(2));
    assert_eq!(next_attempt(0), Some(2));
    assert_eq!(next_attempt(998), Some(999));
    assert_eq!(next_attempt(LAST_NUMBERED), None);
}

#[test]
fn tray_clicks_restore_hide_or_show() {
    assert_eq!(toggle_action(Some(true), Some(true)), WindowAction::Restore);
    assert_eq!(toggle_action(Some(false), Some(true)), WindowAction::Hide);
    assert_eq!(toggle_action(None, None), WindowAction::Hide);
    assert_eq!(toggle_action(Some(false), Some(false)), WindowAction::Show);
    assert_eq!(toggle_action(None, Some(false)), WindowAction::Show);
}
