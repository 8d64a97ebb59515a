use notedock::rooms::{
    document_title, legacy_paragraphs, materialized_title, needs_compaction, needs_legacy_snapshot, relays_to,
    stored_title, Relay, RoomTable, COMPACT_AFTER,
};
use notedock::ws::{
    frame, new_ticket, read_frame, websocket_url, Incoming, TicketBook, MSG_DIFF, MSG_STATE_VECTOR, MSG_UPDATE,
    TICKET_TTL_MS,
};
use std::sync::Arc;

#[test]
fn a_websocket_url_is_ready_to_open() {
    let t = "t0k3n";
    assert_eq!(websocket_url(None, None, Some("nas:8080"), t), "ws://nas:8080/api/v1/ws?ticket=t0k3n");
    assert_eq!(websocket_url(None, None, None, t), "ws://localhost/api/v1/ws?ticket=t0k3n");
    assert_eq!(
        websocket_url(Some(" https , http"), Some("notes.example.com"), Some("10.0.0.2:8080"), t),
        "wss://notes.example.com/api/v1/ws?ticket=t0k3n"
    );
    assert_eq!(
        websocket_url(Some("http,https"), None, Some("nas"), t),
        "ws://nas/api/v1/ws?ticket=t0k3n"
    );
    let ticket = new_ticket();
    let url = websocket_url(None, None, Some("nas"), &ticket);
    assert!(url.contains("/api/v1/ws?ticket="));
    assert_eq!(ticket.len(), 64);
}

#[test]
fn frames_are_a_tag_then_the_payload() {
    assert_eq!(frame(MSG_STATE_VECTOR, &[9, 8]), vec![1, 9, 8]);
    assert_eq!(frame(MSG_UPDATE, &[]), vec![3]);
    assert_eq!(read_frame(&[]), Incoming::Empty);
    assert_eq!(read_frame(&[1, 5, 6]), Incoming::StateVector(vec![5, 6]));
    assert_eq!(read_frame(&[MSG_DIFF, 7]), Incoming::Update(vec![7]));
    assert_eq!(read_frame(&[MSG_UPDATE]), Incoming::Update(vec![]));
    assert_eq!(read_frame(&[42, 1]), Incoming::Unknown(42));
    assert_eq!(read_frame(&frame(MSG_UPDATE, &[4, 2])), Incoming::Update(vec![4, 2]));
}

#[test]
fn a_ticket_opens_one_socket() {
    let mut book = TicketBook::new();
    book.issue("abc".to_owned(), 1_000);
    assert!(book.redeem("abc", 1_500));
    assert!(!book.redeem("abc", 1_600));
    assert!(!book.redeem("never-issued", 1_600));
}

#[test]
fn a_ticket_expires_after_its_time_to_live() {
    let mut book = TicketBook::new();
    book.issue("late".to_owned(), 0);
    assert!(!book.redeem("late", TICKET_TTL_MS));
    book.issue("edge".to_owned(), 0);
    assert!(book.redeem("edge", TICKET_TTL_MS - 1));
    book.issue("clock-went-back".to_owned(), 5_000);
    assert!(book.redeem("clock-went-back", 1_000));
}

#[test]
fn issuing_keeps_other_fresh_tickets() {
    let mut book = TicketBook::new();
    book.issue("one".to_owned(), 0);
    book.issue("two".to_owned(), 10_000);
    assert!(book.redeem("one", 10_000));
    book.issue("old".to_owned(), 0);
    book.issue("new".to_owned(), 35_000);
    assert!(!book.redeem("old", 35_000));
    assert!(book.redeem("two", 20_000));
}

#[test]
fn relays_skip_their_sender() {
    let relay = Relay { from: 3, update: Arc::new(vec![1, 2]) };
    assert!(!relays_to(&relay, 3));
    assert!(relays_to(&relay, 4));
}

#[test]
fn logs_are_compacted_past_the_threshold() {
    assert!(!needs_compaction(COMPACT_AFTER));
    assert!(needs_compaction(COMPACT_AFTER + 1));
    assert!(!needs_compaction(0));
}

#[test]
fn the_server_derives_the_title_from_the_document() {
    assert_eq!(materialized_title("", "第一行会变成标题\n第二行只进预览"), "第一行会变成标题");
    assert_eq!(materialized_title("手写标题", "第一行"), "手写标题");
    assert_eq!(materialized_title("", "\n  \n"), "");
    assert_eq!(stored_title("会议记录", ""), "会议记录");
    assert_eq!(stored_title("会议记录", "新标题"), "新标题");
    assert_eq!(document_title("  标题 \n"), "标题");
}

#[test]
fn legacy_notes_rebuild_one_paragraph_per_line() {
    assert_eq!(legacy_paragraphs("a\n\nb"), vec!["a".to_owned(), "".to_owned(), "b".to_owned()]);
    assert_eq!(legacy_paragraphs(""), vec!["".to_owned()]);
    assert!(needs_legacy_snapshot("", "标题"));
    assert!(needs_legacy_snapshot("正文", ""));
    assert!(!needs_legacy_snapshot("  ", "\n"));
}

#[test]
fn joining_and_leaving_restores_the_table() {
    let mut table: RoomTable<&str> = RoomTable::new();
    assert_eq!(table.join("n1"), None);
    table.open("n1".to_owned(), "room-1");
    assert_eq!(table.connections("n1"), 1);
    assert_eq!(table.join("n1"), Some(&"room-1"));
    assert_eq!(table.connections("n1"), 2);
    assert_eq!(table.leave("n1"), None);
    assert_eq!(table.connections("n1"), 1);
    assert_eq!(table.leave("n1"), Some("room-1"));
    assert_eq!(table.connections("n1"), 0);
    assert_eq!(table.leave("n1"), None);
    assert_eq!(table.join("n1"), None);
}

#[test]
fn rooms_are_kept_apart_by_note() {
    let mut table: RoomTable<u32> = RoomTable::new();
    table.open("a".to_owned(), 1);
    table.open("b".to_owned(), 2);
    assert_eq!(table.join("b"), Some(&2));
    assert_eq!(table.leave("a"), Some(1));
    assert_eq!(table.connections("b"), 2);
    assert_eq!(table.connections("a"), 0);
}
