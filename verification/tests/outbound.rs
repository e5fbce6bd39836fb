use lightbot::outbound::{cq_escape, sanitize_reply, segment_text};

#[test]
fn sanitize_collapses_blank_runs() {
    assert_eq!(sanitize_reply("你好\n\n\n\n世界"), "你好\n\n世界");
    assert_eq!(sanitize_reply("  你好  \n  世界  \n"), "你好\n世界");
    assert_eq!(sanitize_reply("a\r\n\r\n\u{200B}b\u{FEFF}"), "a\n\nb");
    assert_eq!(sanitize_reply("好的。\n\n[记忆:添加 x]\n\n还有吗"), "好的。\n\n[记忆:添加 x]\n\n还有吗");
    assert_eq!(sanitize_reply("\n\n  \n"), "");
}

#[test]
fn sanitizing_twice_changes_nothing() {
    for s in ["", " a \n\n\n b\t\n", "\r\n", "x\u{200E}\n \n\u{200B}\ny"] {
        let once = sanitize_reply(s);
        assert_eq!(sanitize_reply(&once), once);
        assert!(!once.contains("\n\n\n"));
        assert_eq!(once.trim(), once);
    }
}

#[test]
fn cq_escape_basics() {
    assert_eq!(cq_escape("普通文本"), "普通文本");
    assert_eq!(cq_escape("[CQ:image,file=1.jpg]"), "&#91;CQ:image,file=1.jpg&#93;");
    assert_eq!(cq_escape("a&b"), "a&amp;b");
    assert_eq!(cq_escape("&#91;"), "&amp;#91;");
}

#[test]
fn segment_prefers_newline_boundary() {
    assert_eq!(segment_text("你好", 10), vec!["你好"]);
    let text = "第一段话\n第二段话\n第三段话";
    let segs = segment_text(text, 9);
    assert!(segs.len() >= 2);
    assert_eq!(segs.join("\n"), text);
    for s in &segs {
        assert!(s.chars().count() <= 9, "段超长: {s}");
    }
    let long = "一二三四五六七八九十".repeat(5);
    let segs = segment_text(&long, 20);
    assert!(segs.len() >= 3);
    assert_eq!(segs.concat(), long);
    assert!(segment_text("", 10).is_empty());
}

#[test]
fn segments_at_the_edges() {
    assert_eq!(segment_text("ab", 0), vec!["a", "b"]);
    assert_eq!(segment_text("a\nbcdef\ng", 3), vec!["a", "bcd", "ef", "g"]);
    assert_eq!(segment_text("abcd\ne", 3), vec!["abc", "d\ne"]);
    assert_eq!(segment_text("\n", 3), vec!["\n"]);
    assert_eq!(segment_text("\n\n\n", 2), vec!["\n\n"]);
}
