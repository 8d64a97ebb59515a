use notedock::text::XmlNode;
use notedock::ydoc::{
    apply_update, diff, legacy_doc, legacy_plan, plain_text, replay, snapshot, state_vector, title, update_changed,
    xml_tree,
};
use yrs::{GetString, Text, Transact};

fn doc_with(text: &str) -> yrs::Doc {
    let doc = yrs::Doc::new();
    let t = doc.get_or_insert_text("t");
    {
        let mut txn = doc.transact_mut();
        t.insert(&mut txn, 0, text);
    }
    doc
}

fn text_of(doc: &yrs::Doc) -> String {
    let t = doc.get_or_insert_text("t");
    let txn = doc.transact();
    t.get_string(&txn)
}

#[test]
fn an_update_counts_once() {
    let source = doc_with("来自甲");
    let update = snapshot(&source);
    let target = replay(&Vec::new()).expect("empty document");
    assert_eq!(apply_update(&target, &update), Ok(true));
    assert_eq!(text_of(&target), "来自甲");
    assert_eq!(apply_update(&target, &update), Ok(false));
}

#[test]
fn an_unreadable_update_is_refused() {
    let target = replay(&Vec::new()).expect("empty document");
    assert!(apply_update(&target, &[0xff, 0xff, 0xff]).is_err());
    assert!(replay(&vec![vec![0xff, 0xff, 0xff]]).is_err());
}

#[test]
fn a_replayed_log_rebuilds_the_document() {
    let a = doc_with("第一行");
    let doc = replay(&vec![snapshot(&a)]).expect("replay");
    assert_eq!(text_of(&doc), "第一行");
}

#[test]
fn a_diff_brings_a_peer_up_to_date() {
    let ahead = doc_with("乙同时写的");
    let behind = replay(&Vec::new()).expect("empty document");
    let missing = diff(&ahead, &state_vector(&behind)).expect("diff");
    assert_eq!(apply_update(&behind, &missing), Ok(true));
    assert_eq!(text_of(&behind), "乙同时写的");
    let nothing = diff(&ahead, &state_vector(&behind)).expect("diff");
    assert_eq!(apply_update(&behind, &nothing), Ok(false));
    assert!(diff(&ahead, &[0xff]).is_err());
}

#[test]
fn a_change_is_a_different_state_vector_or_delete_set() {
    let none: Vec<(u64, u32, u32)> = vec![];
    assert!(!update_changed(&vec![(1, 3), (2, 5)], &none, &vec![(2, 5), (1, 3)], &none));
    assert!(update_changed(&vec![(1, 3)], &none, &vec![(1, 4)], &none));
    assert!(update_changed(&vec![(1, 3)], &none, &vec![(1, 3), (2, 1)], &none));
    assert!(!update_changed(&vec![], &none, &vec![], &none));
    assert!(update_changed(&vec![(1, 3)], &none, &vec![(1, 3)], &vec![(1, 0, 2)]));
    assert!(!update_changed(&vec![(1, 3)], &vec![(1, 0, 2), (2, 4, 5)], &vec![(1, 3)], &vec![(2, 4, 5), (1, 0, 2)]));
}

#[test]
fn a_delete_only_update_changes_the_document() {
    let source = doc_with("abc");
    let peer = replay(&vec![snapshot(&source)]).expect("replay");
    let before = state_vector(&peer);
    {
        let t = source.get_or_insert_text("t");
        let mut txn = source.transact_mut();
        t.remove_range(&mut txn, 1, 1);
    }
    let deletion = diff(&source, &before).expect("diff");
    assert_eq!(apply_update(&peer, &deletion), Ok(true));
    assert_eq!(text_of(&peer), "ac");
    assert_eq!(apply_update(&peer, &deletion), Ok(false));
}

#[test]
fn a_legacy_note_becomes_paragraphs_and_a_title() {
    assert_eq!(
        legacy_plan("第一行\n\n第三行", "  旧标题 "),
        (vec!["第一行".to_owned(), "".to_owned(), "第三行".to_owned()], Some("旧标题".to_owned()))
    );
    assert_eq!(legacy_plan("", "   "), (vec!["".to_owned()], None));
    let doc = legacy_doc("第一行\n\n第三行", "  旧标题 ");
    assert_eq!(plain_text(&doc), "第一行\n第三行");
    assert_eq!(title(&doc), "旧标题");
    let tree = xml_tree(&doc);
    assert_eq!(tree.len(), 3);
    match &tree[1] {
        XmlNode::Element(tag, children) => {
            assert_eq!(tag, "paragraph");
            assert!(children.is_empty());
        }
        _ => panic!("expected an empty paragraph"),
    }
    match &tree[0] {
        XmlNode::Element(tag, children) => {
            assert_eq!(tag, "paragraph");
            assert_eq!(children.len(), 1);
        }
        _ => panic!("expected a paragraph"),
    }
    let untitled = legacy_doc("正文", "");
    assert_eq!(title(&untitled), "");
    assert_eq!(plain_text(&untitled), "正文");
}
