use notedock::api::empty_doc;
use notedock::json::Json;
use notedock::text::{derive_title, is_block, plain_text, preview, tidy, truncate_chars, xml_plain_text, XmlNode};

fn s(x: &str) -> String {
    x.to_string()
}

fn obj(members: Vec<(&str, Json)>) -> Json {
    Json::Object(members.into_iter().map(|(k, v)| (k.to_string(), v)).collect())
}

fn text_node(t: &str) -> Json {
    obj(vec![("type", Json::String(s("text"))), ("text", Json::String(s(t)))])
}

fn doc() -> Json {
    obj(vec![
        ("type", Json::String(s("doc"))),
        (
            "content",
            Json::Array(vec![
                obj(vec![
                    ("type", Json::String(s("heading"))),
                    ("attrs", obj(vec![("level", Json::Number(s("1")))])),
                    ("content", Json::Array(vec![text_node("会议记录")])),
                ]),
                obj(vec![
                    ("type", Json::String(s("paragraph"))),
                    (
                        "content",
                        Json::Array(vec![
                            text_node("第一点"),
                            obj(vec![("type", Json::String(s("hardBreak")))]),
                            text_node("第二点"),
                        ]),
                    ),
                ]),
            ]),
        ),
    ])
}

#[test]
fn flattens_blocks_and_breaks() {
    assert_eq!(plain_text(&doc()), "会议记录\n第一点\n第二点");
}

#[test]
fn title_is_the_first_line() {
    assert_eq!(derive_title(&plain_text(&doc())), "会议记录");
}

#[test]
fn empty_doc_yields_nothing() {
    assert_eq!(plain_text(&empty_doc()), "");
    assert_eq!(derive_title(""), "");
}

#[test]
fn preview_is_single_line_and_truncated_on_char_boundary() {
    let text = "一二三四五\n六七八九十";
    assert_eq!(preview(text, 6), "一二三四五 …");
    assert_eq!(preview(text, 99), "一二三四五 六七八九十");
}

#[test]
fn tidy_drops_blank_lines_and_trailing_space() {
    assert_eq!(tidy("a  \n\n \r\nb\r\n\n"), "a\nb");
    assert_eq!(tidy(""), "");
    assert_eq!(tidy("\u{3000}x\u{3000}"), "\u{3000}x");
}

#[test]
fn block_types_end_lines() {
    assert!(is_block("paragraph"));
    assert!(is_block("horizontalRule"));
    assert!(!is_block("text"));
    assert!(!is_block("hardBreak"));
}

#[test]
fn truncation_adds_an_ellipsis_only_when_it_cuts() {
    assert_eq!(truncate_chars("abc", 3), "abc");
    assert_eq!(truncate_chars("abcd", 3), "abc…");
    assert_eq!(truncate_chars("", 0), "");
}

#[test]
fn title_skips_blank_lines_and_is_capped() {
    assert_eq!(derive_title("\n   \n  标题  \n正文"), "标题");
    let long = "长".repeat(100);
    let title = derive_title(&long);
    assert_eq!(title.chars().count(), 81);
    assert!(title.ends_with('…'));
}

#[test]
fn xml_and_json_documents_agree() {
    let tree = vec![
        XmlNode::Element(s("heading"), vec![XmlNode::Text(s("会议记录"))]),
        XmlNode::Element(
            s("paragraph"),
            vec![
                XmlNode::Text(s("第一点")),
                XmlNode::Element(s("hardBreak"), vec![]),
                XmlNode::Text(s("第二点")),
            ],
        ),
    ];
    assert_eq!(xml_plain_text(&tree), plain_text(&doc()));
}

#[test]
fn a_hard_break_is_one_newline_whatever_it_carries() {
    let para = obj(vec![
        ("type", Json::String(s("paragraph"))),
        (
            "content",
            Json::Array(vec![
                text_node("甲"),
                obj(vec![("type", Json::String(s("hardBreak"))), ("text", Json::String(s("ignored")))]),
                text_node("乙"),
                Json::Number(s("3")),
                Json::Null,
            ]),
        ),
    ]);
    assert_eq!(plain_text(&para), "甲\n乙");
    assert_eq!(plain_text(&Json::Array(vec![text_node("一"), text_node("二")])), "一二");
}
