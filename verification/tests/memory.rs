use lightbot::chat::apply_memory_ops;
use lightbot::commands::{add_memory, delete_memory, memory_key};
use lightbot::config::{Config, MemoryConfig};
use lightbot::memory::{entry_line, fmt_ts, parse_memory_ops, MemoryEntry, MemoryOp, MemoryStore};

fn store() -> MemoryStore {
    MemoryStore::new("memories/g1.jsonl".into())
}

#[test]
fn add_dedupe_limits_roundtrip() {
    let mut m = store();
    assert!(m.add("用户叫阿伟", "user", 30, 200));
    assert!(!m.add("用户叫阿伟", "user", 30, 200));
    assert!(m.add("用户喜欢简洁", "model", 30, 200));
    assert_eq!(m.entries.len(), 2);
    assert_eq!(m.entries[0].source, "user");
    assert_eq!(m.entries[1].source, "model");
    assert!(m.entries[0].ts > 1_600_000_000);

    let mut m2 = MemoryStore::new(m.file_path().to_string());
    m2.refresh(m.entries.clone());
    assert_eq!(m2.entries.len(), 2);
    assert_eq!(m2.entries[1].text, "用户喜欢简洁");

    assert!(m.add("第三条", "user", 2, 200));
    assert_eq!(m.entries.len(), 2);
    assert_eq!(m.entries[0].text, "用户喜欢简洁");

    assert!(m.add("很长很长的内容", "user", 30, 2));
    assert_eq!(m.entries.last().unwrap().text, "很长");
}

#[test]
fn remove_ops() {
    let mut m = store();
    m.add("A", "user", 30, 200);
    m.add("B", "user", 30, 200);
    m.add("C", "user", 30, 200);
    assert_eq!(m.remove_contains("B"), 1);
    assert_eq!(m.entries.len(), 2);
    assert_eq!(m.remove_contains("不存在"), 0);
    assert_eq!(m.remove_contains("  "), 0);
    assert!(m.remove_index(2));
    assert_eq!(m.entries.len(), 1);
    assert!(!m.remove_index(5));
    assert!(!m.remove_index(0));
}

#[test]
fn trim_to_tokens() {
    let mut m = store();
    m.add("一二三四五六七八九十", "user", 100, 200);
    m.add("一二三四五六七八九十", "user", 100, 200);
    m.add("不同内容", "user", 100, 200);
    // the estimates at a ratio of one
    m.trim_to_tokens(&vec![14, 6], 10);
    assert_eq!(m.entries.len(), 1);
    assert_eq!(m.entries[0].text, "不同内容");
    assert_eq!(MemoryStore::total_tokens(&vec![14, 6]), 20);
    assert_eq!(MemoryStore::total_tokens(&vec![u32::MAX, 6]), u32::MAX);
    m.trim_to_tokens(&vec![6], 5);
    assert!(m.entries.is_empty());
}

#[test]
fn parse_tags() {
    let (clean, ops) = parse_memory_ops("好的,我记住了。[记忆:添加 用户叫阿伟] 还有什么问题吗?");
    assert_eq!(clean, "好的,我记住了。 还有什么问题吗?");
    assert_eq!(ops, vec![MemoryOp::Add("用户叫阿伟".to_string())]);

    let (clean, ops) = parse_memory_ops("[记忆:删除 阿伟]正文");
    assert_eq!(clean, "正文");
    assert_eq!(ops, vec![MemoryOp::Remove("阿伟".to_string())]);

    let (clean, ops) = parse_memory_ops("普通回复");
    assert_eq!(clean, "普通回复");
    assert!(ops.is_empty());

    let (_, ops) = parse_memory_ops("[记忆:添加 ]");
    assert!(ops.is_empty());

    let (_, ops) = parse_memory_ops("[记忆:添加 甲][记忆:删除 乙]");
    assert_eq!(ops.len(), 2);

    let (clean, ops) = parse_memory_ops("你好[记忆:添加");
    assert_eq!(clean, "你好[记忆:添加");
    assert!(ops.is_empty());
}

#[test]
fn the_memory_message() {
    let mut m = store();
    assert!(m.add_at("甲", "model", 30, 200, 0));
    assert!(m.add_at("乙", "user", 30, 200, 86400 * 31));
    assert_eq!(m.system_text(), "[长期记忆]\n- (自动 01-01) 甲\n- (用户 02-01) 乙\n");
    assert_eq!(fmt_ts(i64::MAX), "");
    assert_eq!(fmt_ts(1_431_648_000), "05-15");
    assert_eq!(fmt_ts(951_782_400), "02-29");
    assert_eq!(fmt_ts(951_782_399), "02-28");
    assert_eq!(fmt_ts(-1), "12-31");
    assert_eq!(fmt_ts(-2_203_891_201), "02-28");
    assert_eq!(fmt_ts(-2_203_891_200), "03-01");
    assert_eq!(fmt_ts(8_210_266_876_799), "12-31");
    assert_eq!(fmt_ts(8_210_266_876_800), "");
    assert_eq!(fmt_ts(-8_334_601_228_800), "01-01");
    assert_eq!(fmt_ts(-8_334_601_228_801), "");
    let e = MemoryEntry { ts: 1, source: "x".into(), text: "t".into() };
    assert_eq!(entry_line(&e, "05-06"), "- (用户 05-06) t\n");
    let rows = m.to_values();
    assert_eq!(rows[1].index, 2);
    assert_eq!(rows[1].date, "02-01");
    assert_eq!(rows[1].text, "乙");
}

#[test]
fn what_a_reply_asks_of_the_memory() {
    let cfg = MemoryConfig { enabled: true, max_entries: 2, max_entry_chars: 5, max_tokens: 100 };
    let (_, ops) = parse_memory_ops("[记忆:添加 喜欢茶][记忆:添加 喜欢茶][记忆:删除 咖啡]");
    let mut m = store();
    m.add_at("喜欢咖啡", "user", 30, 200, 1);
    assert!(apply_memory_ops(&mut m, &ops, &cfg, 9));
    assert_eq!(m.entries.len(), 1);
    assert_eq!(m.entries[0].text, "喜欢茶");
    assert_eq!(m.entries[0].ts, 9);
    assert_eq!(m.entries[0].source, "model");
    assert!(!apply_memory_ops(&mut m, &vec![MemoryOp::Remove("无".into())], &cfg, 9));
    let off = MemoryConfig { enabled: false, max_entries: 2, max_entry_chars: 5, max_tokens: 100 };
    assert!(!apply_memory_ops(&mut m, &vec![MemoryOp::Add("新".into())], &off, 9));
    assert_eq!(m.entries.len(), 1);
}

#[test]
fn memory_by_hand() {
    let cfg = Config::default();
    let mut m = store();
    add_memory(&mut m, " 甲 ", &cfg, 5).unwrap();
    assert_eq!(m.entries[0].text, "甲");
    assert_eq!(add_memory(&mut m, "甲", &cfg, 5).unwrap_err(), "记忆为空或已存在");
    assert_eq!(add_memory(&mut m, " ", &cfg, 5).unwrap_err(), "记忆为空或已存在");
    assert_eq!(delete_memory(&mut m, 2).unwrap_err(), "序号无效");
    delete_memory(&mut m, 1).unwrap();
    assert!(m.entries.is_empty());
    assert_eq!(memory_key("g1.jsonl"), Some("g1"));
    assert_eq!(memory_key("g1.txt"), None);
}

#[test]
fn the_memory_has_a_least_limit() {
    assert_eq!(MemoryStore::token_limit(0), 64);
    assert_eq!(MemoryStore::token_limit(64), 64);
    assert_eq!(MemoryStore::token_limit(900), 900);
}
