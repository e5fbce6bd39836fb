use lightbot::config::ModelConfig;
use lightbot::json::parse_json;
use lightbot::llm::{
    balance_url, build_body, build_decide_messages, completions_url, decide_model, http_error,
    is_empty_reply_err,
    parse_decision, parse_reply, ping_messages, ping_text, read_balance, read_response, request_timeout, shape_body,
    summary_budget, summary_request, user_stopped, without_thinking, ApiMessage, StreamEvent, StreamStep,
    StreamedChat, DECIDE_TOKENS, PING_TOKENS,
};

fn hi() -> Vec<ApiMessage> {
    vec![ApiMessage { role: "user".into(), content: "hi".into() }]
}

#[test]
fn decision_parsing() {
    assert!(parse_decision("Y"));
    assert!(parse_decision("y"));
    assert!(!parse_decision("N"));
    assert!(!parse_decision("n"));
    assert!(!parse_decision("N, 不需要"));
    assert!(parse_decision(""));
    assert!(parse_decision("我不知道"));
    assert!(parse_decision("  Y  "));
}

#[test]
fn decide_messages_include_trigger_hint() {
    let msgs = build_decide_messages("人设", "你好", "对方 @ 了你", 67890);
    assert_eq!(msgs.len(), 2);
    assert_eq!(msgs[0].role, "system");
    assert!(msgs[0].content.contains("人设"));
    assert!(msgs[0].content.contains("需要回复"));
    assert!(msgs[1].content.starts_with("【发送者 QQ:67890】"));
    assert!(msgs[1].content.contains("【触发说明:对方 @ 了你】"));
    assert!(msgs[1].content.contains("你好"));
    let msgs2 = build_decide_messages("人设", "hi", "私聊", 0);
    assert!(!msgs2[1].content.contains("发送者"));
    assert_eq!(msgs2[1].content, "【触发说明:私聊】\nhi");
}

#[test]
fn max_tokens_is_capped() {
    let mut m = ModelConfig::default();
    m.max_tokens = 8192;
    let body = build_body(&m, &hi(), Some(1024), false);
    assert_eq!(body.max_tokens, Some(1024));
    let body2 = build_body(&m, &hi(), Some(20000), false);
    assert_eq!(body2.max_tokens, Some(8192));
    assert_eq!(build_body(&m, &hi(), None, false).max_tokens, None);
}

#[test]
fn thinking_depends_on_the_family() {
    let mut m = ModelConfig::default();
    m.model = "DeepSeek-V4".into();
    let b = build_body(&m, &hi(), None, true);
    assert_eq!(b.thinking, Some(true));
    assert_eq!(b.reasoning_effort.as_deref(), Some("high"));
    assert!(!b.with_temperature);
    assert!(b.include_usage);
    let b = build_body(&without_thinking(&m), &hi(), None, false);
    assert_eq!(b.thinking, Some(false));
    assert!(b.with_temperature);
    assert!(b.reasoning_effort.is_none());
    assert!(!b.include_usage);
    m.model = "gpt-4o-mini".into();
    let b = build_body(&m, &hi(), None, false);
    assert_eq!(b.thinking, None);
    assert!(b.with_temperature);
    assert_eq!(shape_body(&m, true, &hi(), None, false).thinking, Some(true));
}

#[test]
fn sse_chunks_applied() {
    let mut sc = StreamedChat::new();
    let v = parse_json(r#"{"choices": [{"delta": {"reasoning_content": "想", "content": ""}}]}"#).unwrap();
    match sc.apply_chunk(&v) {
        Some(StreamEvent::Reasoning { delta }) => assert_eq!(delta, "想"),
        _ => panic!("应为思考增量"),
    }
    let v2 = parse_json(
        r#"{"choices": [{"delta": {"content": "你好"}}],
            "usage": {"prompt_tokens": 100, "completion_tokens": 10,
                      "prompt_cache_hit_tokens": 90, "prompt_cache_miss_tokens": 10}}"#,
    )
    .unwrap();
    match sc.apply_chunk(&v2) {
        Some(StreamEvent::Content { delta }) => assert_eq!(delta, "你好"),
        _ => panic!("应为正文增量"),
    }
    assert_eq!(sc.usage.prompt_tokens, 100);
    assert_eq!(sc.usage.cache_hit, 90);
    assert_eq!(sc.reasoning, "想");
    assert_eq!(sc.text, "你好");

    let v3 =
        parse_json(r#"{"choices": [{"delta": {"reasoning_content": "再想", "content": "接着写"}}]}"#).unwrap();
    match sc.apply_chunk(&v3) {
        Some(StreamEvent::Reasoning { delta }) => assert_eq!(delta, "再想"),
        _ => panic!("应为思考增量"),
    }
    assert_eq!(sc.pending_content.as_deref(), Some("接着写"));
}

#[test]
fn a_stream_is_read_line_by_line() {
    let mut sc = StreamedChat::new();
    assert!(matches!(sc.next_event(false), StreamStep::Starved));
    sc.feed("data: {\"choices\":[{\"delta\":{\"reasoning_content\":\"嗯\",\"content\":\"好\"}}]}\n\n: x\nda".as_bytes());
    assert!(matches!(sc.next_event(true), StreamStep::Stopped));
    match sc.next_event(false) {
        StreamStep::Event(StreamEvent::Reasoning { delta }) => assert_eq!(delta, "嗯"),
        _ => panic!(),
    }
    match sc.next_event(false) {
        StreamStep::Event(StreamEvent::Content { delta }) => assert_eq!(delta, "好"),
        _ => panic!(),
    }
    assert!(matches!(sc.next_event(false), StreamStep::Line));
    assert!(matches!(sc.next_event(false), StreamStep::Line));
    assert!(matches!(sc.next_event(false), StreamStep::Starved));
    sc.feed("ta:[DONE]\n".as_bytes());
    assert!(matches!(sc.next_event(false), StreamStep::Done));
    let r = sc.finish();
    assert_eq!(r.text, "好");
    assert_eq!(r.reasoning, "嗯");
    let mut torn = StreamedChat::new();
    torn.feed(&[0xff, b'\n']);
    assert_eq!(torn.buffer, "\u{FFFD}\n");
    torn.feed_text("x");
    assert_eq!(torn.buffer, "\u{FFFD}\nx");
}

#[test]
fn replies_are_read() {
    let body = r#"{"choices":[{"message":{"content":" 好 ","reasoning_content":"想"}}],
        "usage":{"prompt_tokens":7,"completion_tokens":3,"completion_tokens_details":{"reasoning_tokens":2}}}"#;
    let r = read_response(true, "200 OK", body).unwrap();
    assert_eq!(r.text, "好");
    assert_eq!(r.reasoning, "想");
    assert_eq!(r.usage.prompt_tokens, 7);
    assert_eq!(r.usage.reasoning_tokens, 2);
    assert_eq!(read_response(false, "500", "坏").unwrap_err(), "HTTP 500: 坏");
    let e = read_response(true, "200", "{}").unwrap_err();
    assert_eq!(e, "模型返回空内容: {}");
    assert!(is_empty_reply_err(&e));
    assert!(!is_empty_reply_err("HTTP 500"));
    let e = read_response(true, "200", "oops").unwrap_err();
    assert_eq!(e, "响应解析失败: expected value at line 1 column 1\noops");
    let v = parse_json("{\"choices\":[]}").unwrap();
    assert!(parse_reply(&v, "raw").is_err());
    assert_eq!(http_error("404", &"x".repeat(5), 3), "HTTP 404: xxx…");
    assert!(read_balance(true, "200", "{\"is_available\":true}").unwrap().bool_field("is_available").unwrap());
    assert!(read_balance(true, "200", "x").is_err());
    assert_eq!(read_balance(false, "401", "no").unwrap_err(), "HTTP 401: no");
}

#[test]
fn addresses_and_limits() {
    let mut m = ModelConfig::default();
    m.base_url = "https://h//".into();
    m.timeout_secs = 3;
    assert_eq!(completions_url(&m), "https://h/chat/completions");
    assert_eq!(balance_url(&m), "https://h/user/balance");
    assert_eq!(request_timeout(&m), 10);
    assert_eq!(summary_budget(3), 64);
    assert_eq!(summary_budget(300), 300);
    assert_eq!(ping_text("ok", 12), "✓ 连通,模型回复:ok (耗时 12ms)");
    assert_eq!(user_stopped(), "用户已停止本次回复");
}

#[test]
fn a_summary_names_the_speakers() {
    let msgs = vec![
        ApiMessage { role: "user".into(), content: "[QQ1] 你好".into() },
        ApiMessage { role: "assistant".into(), content: "在".into() },
    ];
    let s = summary_request("旧", &msgs);
    assert!(s.ends_with("【已有摘要】\n旧\n\n【新增对话】\n用户: [QQ1] 你好\nAI: 在\n"));
    assert!(!summary_request("", &msgs).contains("已有摘要"));
}

#[test]
fn decisions_and_trials_are_short() {
    let mut m = ModelConfig::default();
    m.max_tokens = 900;
    m.thinking = "enabled".into();
    m.api_key = "k".into();
    let d = decide_model(&m);
    assert_eq!(d.max_tokens, 32);
    assert_eq!(DECIDE_TOKENS, 32);
    assert_eq!((d.thinking.as_str(), d.api_key.as_str()), ("enabled", "k"));
    assert_eq!(d.model, m.model);
    assert_eq!(PING_TOKENS, 16);
    let p = ping_messages();
    assert_eq!(p.len(), 1);
    assert_eq!((p[0].role.as_str(), p[0].content.as_str()), ("user", "回复「ok」两个字"));
}
