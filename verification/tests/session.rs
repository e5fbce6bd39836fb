use lightbot::cost::{today, CostTracker, UsageRecord};
use lightbot::llm::Usage;
use lightbot::session::{
    insert_row, key_of_file, read_history_summary, remove_history_entry, rewrite_history_entry, session_key,
    FileLine, HistoryMsg, LoadedLine, Session, SessionRow,
};
use lightbot::trace::{id_text, new_id, now_ts, TraceEvent, TraceStore, TRACE_CAP};

fn loaded(records: Vec<HistoryMsg>) -> Vec<LoadedLine> {
    records
        .into_iter()
        .map(|msg| LoadedLine { msg, estimate: 9, fresh_id: new_id(1) })
        .collect()
}

#[test]
fn session_push_persist_roundtrip() {
    let mut s = Session::new("g123", "dir", 0);
    s.ensure_loaded(vec![]);
    s.push_id("user", "你好", 4, &new_id(1), 0);
    s.push_id("assistant", "你好呀", 5, &new_id(2), 0);
    assert_eq!(s.history.len(), 2);
    assert_eq!(s.file, "dir/g123.jsonl");
    assert_eq!(s.memory.file_path(), "dir/memories/g123.jsonl");

    s.summary = Some("用户打了个招呼".into());
    s.summary_tokens = 11;
    assert_eq!(s.total_tokens(), 20);
    let file = s.rewrite();
    assert_eq!(file[0].role, "__summary__");

    let mut s2 = Session::new("g123", "dir", 0);
    s2.ensure_loaded(loaded(file));
    assert_eq!(s2.history.len(), 2);
    assert_eq!(s2.history[0].role, "user");
    assert_eq!(s2.history[0].text, "你好");
    assert_eq!(s2.summary.as_deref(), Some("用户打了个招呼"));
    assert!(s2.summary_tokens > 0);
    s2.ensure_loaded(loaded(s.rewrite()));
    assert_eq!(s2.history.len(), 2);

    s.clear();
    let mut s3 = Session::new("g123", "dir", 0);
    s3.ensure_loaded(loaded(s.rewrite()));
    assert_eq!(s3.history.len(), 0);
    assert!(s3.summary.is_none());
}

fn line(role: &str, text: &str, id: &str) -> FileLine {
    FileLine::Message(HistoryMsg {
        role: role.into(),
        text: text.into(),
        ts: 1,
        tokens: 3,
        id: id.into(),
        sender: 0,
    })
}

fn messages(lines: &Vec<FileLine>) -> Vec<HistoryMsg> {
    lines
        .iter()
        .filter_map(|l| match l {
            FileLine::Message(h) => Some(h.clone()),
            FileLine::Other(_) => None,
        })
        .collect()
}

#[test]
fn history_entry_edit_delete() {
    let mut s = Session::new("g1", "dir", 0);
    s.ensure_loaded(vec![]);
    s.push_id("user", "你好", 3, "id1", 123);
    s.push_id("assistant", "你好呀", 3, "id2", 0);
    let mut file: Vec<FileLine> = s.rewrite().into_iter().map(FileLine::Message).collect();
    file.insert(1, FileLine::Other("坏行".into()));
    rewrite_history_entry(&mut file, "id1", "改写后的内容", 8).unwrap();
    let (count, tokens, _, _) = read_history_summary(&messages(&file));
    assert_eq!(count, 2);
    assert_eq!(tokens, 11);
    assert_eq!(messages(&file)[0].text, "改写后的内容");
    assert_eq!(messages(&file)[0].sender, 123);
    rewrite_history_entry(&mut file, "id1", " 改写后的内容 ", 8).unwrap();
    assert_eq!(messages(&file)[0].text, "改写后的内容");
    assert!(rewrite_history_entry(&mut file, "不存在", "x", 1).is_err());
    assert_eq!(rewrite_history_entry(&mut file, "id1", " ", 1).unwrap_err(), "内容不能为空");

    remove_history_entry(&mut file, "id1").unwrap();
    let (count, _, _, _) = read_history_summary(&messages(&file));
    assert_eq!(count, 1);
    assert!(remove_history_entry(&mut file, "id1").is_err());
    assert!(matches!(&file[0], FileLine::Other(s) if s == "坏行"));

    let mut s2 = Session::new("g1", "dir", 0);
    s2.ensure_loaded(loaded(messages(&file)));
    assert_eq!(s2.history.len(), 1);
    assert_eq!(s2.history[0].text, "你好呀");
    s2.reload_from_disk(vec![]);
    assert!(s2.history.is_empty());
}

#[test]
fn records_without_ids_get_one() {
    let mut s = Session::new("g1", "d", 0);
    let msg = HistoryMsg { role: "user".into(), text: "x".into(), ts: 0, tokens: 1, id: "".into(), sender: 0 };
    s.ensure_loaded(vec![LoadedLine { msg, estimate: 1, fresh_id: "neu".into() }]);
    assert_eq!(s.history[0].id, "neu");
    s.push_id_at("user", "y", 2, "i", 7, 99);
    assert_eq!(s.history[1].ts, 99);
    assert_eq!(s.history[1].sender, 7);
}

#[test]
fn summaries_of_files() {
    let mut m = messages(&vec![line("__summary__", "旧", ""), line("user", "a", "1"), line("__summary__", "新", "")]);
    let (count, tokens, has, summary) = read_history_summary(&m);
    assert_eq!((count, tokens, has), (1, 3, true));
    assert_eq!(summary.as_deref(), Some("新"));
    m.clear();
    assert_eq!(read_history_summary(&m), (0, 0, false, None));
}

#[test]
fn sessions_expire() {
    let s = Session::new("g1", "d", 5);
    let hour = 3_600_000_000_000i128;
    assert!(!s.expired(5 + 24 * hour, 24));
    assert!(s.expired(6 + 24 * hour, 24));
    assert!(!s.expired(i128::MAX, 0));
}

#[test]
fn keys_and_rows() {
    let v = lightbot::json::parse_json("{\"message_type\":\"private\",\"user_id\":9}").unwrap();
    assert_eq!(session_key(&lightbot::napcat::parse_message(&v, None)), "u9");
    let v = lightbot::json::parse_json("{\"group_id\":-4,\"user_id\":9}").unwrap();
    assert_eq!(session_key(&lightbot::napcat::parse_message(&v, None)), "g-4");
    assert_eq!(key_of_file("g1.jsonl"), "g1");
    let mut rows = Vec::new();
    for (k, n) in [("u2", 1), ("g10", 2), ("g1", 3), ("u2", 4)] {
        insert_row(&mut rows, SessionRow { key: k.into(), count: n, tokens: 0, has_summary: false });
    }
    let got: Vec<(&str, usize)> = rows.iter().map(|r| (r.key.as_str(), r.count)).collect();
    assert_eq!(got, vec![("g1", 3), ("g10", 2), ("u2", 4)]);
}

#[test]
fn push_read_cap() {
    let mut s = TraceStore::new("g1.jsonl".into(), vec![]);
    for i in 0..(TRACE_CAP + 20) {
        s.push(TraceEvent::Cmd { turn: format!("t{i}"), ts: i as i64, text: "/stats".into(), reply: "ok".into() });
    }
    assert_eq!(s.events.len(), TRACE_CAP);
    match &s.events[0] {
        TraceEvent::Cmd { turn, .. } => assert_eq!(turn, "t20"),
        _ => panic!("wrong type"),
    }
}

#[test]
fn rewrite_and_remove_by_id() {
    let mut s = TraceStore::new("g2.jsonl".into(), vec![]);
    s.push(TraceEvent::MsgIn {
        id: Some("a1".into()),
        turn: "t1".into(),
        ts: 1,
        trigger: "at".into(),
        text: "你好".into(),
        ignored: false,
    });
    s.push(TraceEvent::MsgOut {
        id: Some("a2".into()),
        turn: "t1".into(),
        ts: 2,
        text: "你好呀".into(),
        model: "m".into(),
        usage: Usage::default(),
    });
    s.push(TraceEvent::Decide {
        turn: "t1".into(),
        ts: 0,
        text: "你好".into(),
        verdict: true,
        model: "m".into(),
        ms: 10,
    });
    assert!(s.rewrite_text_by_id("a1", "改过了"));
    match &s.events[0] {
        TraceEvent::MsgIn { text, .. } => assert_eq!(text, "改过了"),
        _ => panic!(),
    }
    assert!(s.rewrite_text_by_id("a2", "也改了"));
    assert!(!s.rewrite_text_by_id("a3", "x"));
    assert_eq!(s.remove_by_id("a2"), 1);
    assert_eq!(s.events.len(), 2);
    assert_eq!(s.remove_by_id("a2"), 0);
}

#[test]
fn ids_and_moments() {
    assert_eq!(id_text(255, 10), "ff10");
    assert!(new_id(3).ends_with('3'));
    assert!(new_id(1).len() > 10);
    assert!(now_ts() > 1_600_000_000);
}

fn rec(category: &str, hit: u64, miss: u64) -> UsageRecord {
    let usage = Usage {
        prompt_tokens: hit + miss,
        completion_tokens: 100,
        cache_hit: hit,
        cache_miss: miss,
        reasoning_tokens: 0,
    };
    UsageRecord::of(0, "deepseek-v4-flash", category, &usage)
}

#[test]
fn tracker_roundtrip() {
    let mut t = CostTracker::new("2026-01-01".into(), vec![]);
    t.record(rec("dialogue", 500, 100));
    t.record(rec("decide", 10, 20));
    let s = t.today();
    assert_eq!(s.calls, 2);
    assert_eq!(s.cache_hit, 510);
    assert_eq!(s.cache_miss, 120);
    assert_eq!(s.prompt, 630);
    assert_eq!(s.completion, 200);
    let cats = t.by_category();
    assert_eq!(cats.len(), 2);
    assert_eq!(cats[0].category, "dialogue");
    assert_eq!(cats[1].sum.cache_hit, 10);
    let t2 = CostTracker::new("2026-01-01".into(), t.records.clone());
    assert_eq!(t2.today().calls, 2);
    assert_eq!(t2.today().cache_hit, 510);
    t.record(rec("agent", u64::MAX - 5, 5));
    assert_eq!(t.today().cache_hit, u64::MAX);
    assert_eq!(t.by_category().len(), 2);
}

#[test]
fn days_turn() {
    let mut t = CostTracker::new("2026-01-01".into(), vec![rec("decide", 1, 1)]);
    assert!(!t.is_new_day("2026-01-01"));
    assert!(t.is_new_day("2026-01-02"));
    t.turn_to("2026-01-02".into(), vec![]);
    assert_eq!(t.today().calls, 0);
    assert_eq!(today().len(), 10);
}
