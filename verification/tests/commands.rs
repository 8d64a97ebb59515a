use notedock::export::{export_file_name, fail, safe_stem, session_label, to_crlf};

#[test]
fn stem_keeps_cjk_and_replaces_illegal_characters() {
    assert_eq!(safe_stem("blender学习"), "blender学习");
    assert_eq!(safe_stem("2026/09/04 会议"), "2026-09-04 会议");
    assert_eq!(safe_stem("a:b*c?d\"e<f>g|h"), "a-b-c-d-e-f-g-h");
}

#[test]
fn stem_falls_back_when_there_is_nothing_usable() {
    assert_eq!(safe_stem(""), "未命名");
    assert_eq!(safe_stem("   "), "未命名");
    assert_eq!(safe_stem("..."), "未命名");
}

/// A trailing dot is legal in the title and not in the filename.
#[test]
fn stem_trims_trailing_dots_and_spaces() {
    assert_eq!(safe_stem("  草稿.  "), "草稿");
}

#[test]
fn stem_escapes_windows_device_names() {
    assert_eq!(safe_stem("CON"), "CON_");
    assert_eq!(safe_stem("com1"), "com1_");
    // Not a device: only COM1..COM9 are, so a longer name is left alone.
    assert_eq!(safe_stem("COM10"), "COM10");
    assert_eq!(safe_stem("CONTEXT"), "CONTEXT");
}

#[test]
fn stem_is_length_capped() {
    assert_eq!(safe_stem(&"字".repeat(200)).chars().count(), 60);
}

#[test]
fn stem_turns_control_characters_into_spaces() {
    assert_eq!(safe_stem("a\tb\u{7f}c"), "a b c");
    assert_eq!(safe_stem("lpt9"), "lpt9_");
    assert_eq!(safe_stem("nul"), "nul_");
}

#[test]
fn export_names_are_numbered_after_the_first() {
    assert_eq!(export_file_name("笔记", 1), "笔记.md");
    assert_eq!(export_file_name("笔记", 2), "笔记 (2).md");
    assert_eq!(export_file_name("笔记", 999), "笔记 (999).md");
}

#[test]
fn exported_text_uses_crlf_throughout() {
    assert_eq!(to_crlf("a\nb\r\nc"), "a\r\nb\r\nc");
    assert_eq!(to_crlf("\r\r\n"), "\r\r\n");
    assert_eq!(to_crlf(&to_crlf("x\n\ny")), to_crlf("x\n\ny"));
}

#[test]
fn failures_read_context_then_cause() {
    assert_eq!(fail("无法删除笔记", "disk full"), "无法删除笔记：disk full");
}

#[test]
fn sessions_are_labelled_by_hostname() {
    assert_eq!(session_label(Some("PC-1")), "desktop:PC-1");
    assert_eq!(session_label(None), "desktop");
}

#[test]
fn stems_are_trimmed_after_the_cap() {
    let title = format!("{}  尾巴", "a".repeat(59));
    let stem = safe_stem(&title);
    assert_eq!(stem, "a".repeat(59));
    assert_eq!(stem.trim(), stem);
    assert_eq!(safe_stem(" com1 "), "com1_");
}

#[test]
fn stems_never_end_in_a_dot_or_space() {
    assert_eq!(safe_stem("草稿. ."), "草稿");
    assert_eq!(safe_stem(" . 草稿 .. . "), ". 草稿");
    let dots = format!("{}x", ".".repeat(61));
    assert_eq!(safe_stem(&dots), "未命名");
    let cut = format!("{}.b", "a".repeat(59));
    assert_eq!(safe_stem(&cut), "a".repeat(59));
    assert_eq!(safe_stem("COM0"), "COM0");
    assert_eq!(safe_stem("lpt0"), "lpt0");
}
