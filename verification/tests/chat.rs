use lightbot::agent::tools::agent_guide;
use lightbot::agent::AgentMode;
use lightbot::botcmd::{handle_command, Effect};
use lightbot::chat::{
    activity_window, asks_decider, conclude, counts, decide, digest_reply, doubt, hint, light_budget, light_messages,
    light_reply, note_entry, note_heading, question, route, sampled, send_plan, steps, trail_noting, trigger_label,
    with_memory, Decision, Ending, Route, StreamWatch, Then,
};
use lightbot::config::{AgentConfig, Config, TrailConfig};
use lightbot::context::{
    assemble, build_messages, history_label, history_prefix, input_budget, render_lines, render_trail,
    speaker_prefix, trail_label, trail_lines, trail_plan, ts_label, whole_request, window_secs, BudgetConfig,
    FoldOutcome,
};
use lightbot::dialogue::{Action, Event, Stage, Turn};
use lightbot::events::SessionStatus;
use lightbot::json::Json;
use lightbot::llm::{check_streamed, is_empty_reply_err, user_stopped, LlmReply, StreamEvent, Usage};
use lightbot::memory::fmt_ts;
use lightbot::napcat::{MsgKind, ParsedMsg};
use lightbot::session::{Session, SessionRow};
use lightbot::trace::TraceEvent;
use std::time::{SystemTime, UNIX_EPOCH};

fn msg(kind: MsgKind, text: &str) -> ParsedMsg {
    ParsedMsg {
        kind,
        group_id: Some(7),
        user_id: 5,
        is_self: false,
        text: text.into(),
        at_me: false,
        reply_me: false,
        raw: Json::null(),
    }
}

fn group(text: &str) -> ParsedMsg {
    msg(MsgKind::Group, text)
}

fn reply(text: &str) -> LlmReply {
    LlmReply { text: text.into(), reasoning: String::new(), usage: Usage::default() }
}

fn now_ns() -> u128 {
    SystemTime::now().duration_since(UNIX_EPOCH).unwrap().as_nanos()
}

#[test]
fn messages_are_routed() {
    let mut cfg = Config::default();
    cfg.napcat.keyword = "机器人".into();
    let go = |m: &ParsedMsg, all: bool, one: bool| route(&cfg, "#", m, all, one);
    let mut own = group("x");
    own.is_self = true;
    assert!(matches!(go(&own, false, false), Route::Own));
    assert!(matches!(go(&group("#别理"), false, false), Route::Ignored));
    assert!(matches!(go(&group("/stats"), true, false), Route::Paused));
    assert!(matches!(go(&group("/stats"), false, true), Route::Paused));
    assert!(matches!(go(&group("[引用回复] /resume"), false, true), Route::Command));
    assert!(matches!(go(&group(" /瞎编"), false, false), Route::Command));
    let mut at = group("在吗");
    at.at_me = true;
    assert!(matches!(go(&at, false, false), Route::Called("对方 @ 了你")));
    assert!(matches!(go(&group("机器人你好"), false, false), Route::Called("消息包含触发关键词")));
    assert!(matches!(go(&msg(MsgKind::Private, "hi"), false, false), Route::Called("这是发给你的私聊消息")));
    assert!(matches!(go(&group("小灯在吗"), false, false), Route::Named));
    assert!(matches!(go(&group("天气不错"), false, false), Route::Chance(w) if w == "天气不错"));
    assert!(matches!(go(&group(""), false, false), Route::Passed));
    assert_eq!(note_heading(&go(&group("#别理"), false, false)), "ignored");
    assert_eq!(note_heading(&go(&group("x"), true, false)), "paused");
    assert_eq!(note_heading(&Route::Passed), "untriggered");
    assert_eq!(note_heading(&Route::Named), "decided_no");
    assert!(!counts(&Route::Paused));
    assert!(counts(&Route::Passed));
    let mut quoted = group("x");
    quoted.reply_me = true;
    assert_eq!(hint(&quoted), "对方引用回复了你的消息");
    assert_eq!(trigger_label(&quoted), "reply");
    assert_eq!(trigger_label(&group("x")), "keyword");
    assert_eq!(activity_window(&cfg), 120);
}

#[test]
fn steps_after_the_decision() {
    let s = steps(&Route::Named, true, false);
    assert!(s.mark && s.next == Then::Dialogue);
    assert_eq!(steps(&Route::Named, false, false).next, Then::Note);
    let chance = Route::Chance("x".into());
    let s = steps(&chance, true, false);
    assert!(s.trail && !s.mark && s.next == Then::Light);
    assert_eq!(steps(&chance, true, true).next, Then::Dialogue);
    let s = steps(&chance, false, true);
    assert!(s.mark && s.next == Then::Note);
    assert!(steps(&Route::Passed, true, true).trail);
    assert_eq!(steps(&Route::Command, false, false).next, Then::Dialogue);
    assert_eq!(steps(&Route::Paused, true, true).next, Then::Note);
    match note_entry("t", 3, "paused", "x") {
        TraceEvent::MsgIn { id, trigger, ignored, .. } => {
            assert!(id.is_none() && ignored);
            assert_eq!(trigger, "paused");
        }
        _ => panic!(),
    }
}

#[test]
fn decisions_are_read_with_care() {
    let mut cfg = Config::default();
    assert!(!asks_decider(&cfg));
    cfg.chat.decider = true;
    assert!(asks_decider(&cfg));
    cfg.models.clear();
    assert!(!asks_decider(&cfg));
    let (yes, e) = decide(Decision::Failed("断".into()), "t", 1, "w", "m", 2);
    assert!(yes);
    assert!(matches!(e, TraceEvent::Error { text, .. } if text == "决策器失败: 断"));
    let (yes, e) = decide(Decision::Cancelled, "t", 1, "w", "m", 2);
    assert!(!yes);
    assert!(matches!(e, TraceEvent::Error { text, .. } if text == "已暂停,决策中止"));
    let (yes, e) = decide(Decision::Said(false), "t", 1, "w", "m", 2);
    assert!(!yes);
    assert!(matches!(e, TraceEvent::Decide { verdict: false, ms: 2, .. }));
}

#[test]
fn a_turn_from_question_to_reply() {
    let mut cfg = Config::default();
    cfg.napcat.keyword = "小灯".into();
    let mut t = Turn::new(&cfg, &group("[引用回复] 小灯 你好"));
    match t.step(Event::Begun { busy: false }) {
        Action::Trim(q) => assert_eq!(q, "你好"),
        _ => panic!(),
    }
    assert!(matches!(t.step(Event::Begun { busy: false }), Action::Nothing));
    match t.step(Event::Trimmed { has_model: true }) {
        Action::Ask { question, heading } => {
            assert_eq!(question, "你好");
            assert_eq!(heading, "keyword");
        }
        _ => panic!(),
    }
    let empty = Event::Answered { result: Err("模型返回空内容: {}".into()), hint_sent: false };
    assert!(matches!(t.step(empty), Action::AskAgain));
    assert_eq!(t.stage, Stage::AskingAgain);
    let ok = Event::Answered { result: Ok(reply("好的[记忆:添加 x]\n\n\n")), hint_sent: false };
    match t.step(ok) {
        Action::Reply { out, ops, tasks, reply } => {
            assert!(tasks.is_empty());
            assert_eq!(out, "好的");
            assert_eq!(ops.len(), 1);
            assert!(reply.text.contains("记忆"));
        }
        _ => panic!(),
    }
    assert_eq!(t.stage, Stage::Over);
}

#[test]
fn turns_that_end_early() {
    let cfg = Config::default();
    let mut t = Turn::new(&cfg, &group("x"));
    assert!(matches!(t.step(Event::Begun { busy: true }), Action::Queue));

    let mut t = Turn::new(&cfg, &group(" /stats "));
    assert!(matches!(t.step(Event::Begun { busy: false }), Action::Try(c) if c == "/stats"));
    match t.step(Event::Tried(Some("r".into()))) {
        Action::NoteCommand { cmd, reply } => assert_eq!((cmd.as_str(), reply.as_str()), ("/stats", "r")),
        _ => panic!(),
    }

    let mut t = Turn::new(&cfg, &group("/瞎编"));
    t.step(Event::Begun { busy: false });
    assert!(matches!(t.step(Event::Tried(None)), Action::Trim(q) if q == "/瞎编"));
    assert!(matches!(t.step(Event::Trimmed { has_model: false }), Action::Drain));

    let asking = |text: &str| {
        let mut t = Turn::new(&cfg, &group(text));
        t.step(Event::Begun { busy: false });
        t.step(Event::Trimmed { has_model: true });
        t
    };
    match asking("x").step(Event::Answered { result: Err(user_stopped().into()), hint_sent: true }) {
        Action::Fail { note, tell } => {
            assert_eq!(note, "已停止");
            assert_eq!(tell.as_deref(), Some("⏹ 回复已停止。"));
        }
        _ => panic!(),
    }
    match asking("x").step(Event::Answered { result: Err(user_stopped().into()), hint_sent: false }) {
        Action::Fail { tell, .. } => assert!(tell.is_none()),
        _ => panic!(),
    }
    match asking("x").step(Event::Answered { result: Err("HTTP 401: no".into()), hint_sent: false }) {
        Action::Fail { note, tell } => {
            assert_eq!(note, "HTTP 401: no");
            assert_eq!(tell.as_deref(), Some("⚠️ 出错了: HTTP 401: no"));
        }
        _ => panic!(),
    }
}

#[test]
fn questions_without_words() {
    assert_eq!(question("小灯", "小灯", true, false), "(对方 @/引用了你,但没有附带文本内容)");
    assert_eq!(question("小灯", "小灯", false, false), "(对方发出了触发词,但没有附带文本内容)");
    assert_eq!(question("小灯 在吗", "小灯", false, false), "在吗");
    assert!(matches!(conclude(Err("模型返回空内容".into()), true, false), Ending::Failed(_)));
    assert!(matches!(conclude(Ok(reply("x")), false, false), Ending::Reply(_)));
    assert_eq!(digest_reply("[记忆:添加 x]").0, "(模型未返回内容)");
    assert_eq!(light_reply(" \n[记忆:删除 x]"), None);
    assert_eq!(light_reply("哈 "), Some("哈".to_string()));
    let m = light_messages("人设", 5, "天气");
    assert!(m[0].content.starts_with("人设\n\n(现在是群聊中的随口插话场景"));
    assert_eq!(m[1].content, "[QQ5] 天气");
    let mut cfg = Config::default();
    assert_eq!(light_budget(&cfg), 120);
    cfg.chat.interject.interject_max_tokens = 1;
    assert_eq!(light_budget(&cfg), 16);
}

#[test]
fn the_hint_comes_once() {
    let sec = 1_000_000_000i128;
    let mut w = StreamWatch::new();
    assert!(!w.on_tick(true, 15, 0, 44 * sec));
    assert!(w.on_tick(true, 15, 0, 45 * sec));
    assert!(!w.on_tick(true, 15, 0, 99 * sec));
    let mut w = StreamWatch::new();
    let thought = StreamEvent::Reasoning { delta: "x".into() };
    let text = StreamEvent::Content { delta: "x".into() };
    assert_eq!(w.on_event(&thought, 10 * sec), SessionStatus::Thinking);
    assert!(!w.on_tick(true, 15, 0, 24 * sec));
    assert!(!w.on_tick(false, 15, 0, 99 * sec));
    let mut late = w;
    assert!(late.on_tick(true, 15, 0, 25 * sec));
    assert_eq!(w.on_event(&text, 20 * sec), SessionStatus::Replying);
    assert!(!w.on_tick(true, 15, 0, 99 * sec));
}

#[test]
fn replies_are_sent_in_pieces() {
    let p = send_plan(&group("x"), "a[1]\nb", 4);
    assert_eq!(p.len(), 2);
    assert_eq!(p[0].chunk, "a[1]");
    assert_eq!(
        lightbot::napcat::call_text(&p[0].call, "e"),
        "{\"action\":\"send_group_msg\",\"echo\":\"e\",\"params\":{\"group_id\":7,\"message\":\"a&#91;1&#93;\"}}"
    );
    let p = send_plan(&msg(MsgKind::Private, "x"), "ok", 4);
    assert_eq!(p[0].call.action, "send_private_msg");
    assert!(send_plan(&group("x"), "", 4).is_empty());
    let row = SessionRow { key: "g1".into(), count: 1, tokens: 2, has_summary: false };
    let row = with_memory(row, Some((5, 6, true)));
    assert_eq!((row.count, row.tokens, row.has_summary), (5, 6, true));
}

fn trail_cfg(mode: &str) -> TrailConfig {
    TrailConfig { enabled: true, inject_mode: mode.into(), window_minutes: 5, max_entries: 30, max_tokens: 800 }
}

#[test]
fn trail_render() {
    let now = now_ns();
    let lines = vec![(now, 123i64, "你好".to_string()), (now, 456, "令牌:abc".to_string())];
    let shown = render_lines(&lines, 300);
    assert_eq!(shown.len(), 2);
    // the estimates at a ratio of one
    let tokens = vec![8, 9];
    let out = render_trail(&shown, &tokens, 800).unwrap();
    assert!(out.starts_with("[群聊最近消息]"));
    assert!(out.contains("你好"));
    assert!(out.contains("令牌"));
    assert!(out.contains("[QQ123]"));
    assert!(out.contains('['));
    let out2 = render_trail(&shown, &tokens, 10).unwrap();
    assert!(out2.contains("令牌"));
    assert!(!out2.contains("你好"));
    let out3 = render_trail(&shown, &tokens, 0).unwrap();
    assert!(out3.contains("你好"));
    assert!(out3.contains("令牌"));
    let old = now - 600 * 1_000_000_000;
    let stale = render_lines(&vec![(old, 123, "过期".to_string())], 300);
    assert!(render_trail(&stale, &vec![], 800).is_none());
}

#[test]
fn trail_with_given_labels() {
    let lines = vec![(10, 1i64, "a".to_string()), (2_000_000_000, 0, "b".to_string())];
    let labels = vec!["[05-06 07:08]".to_string(), "[05-06 07:09]".to_string()];
    let shown = trail_lines(&lines, &labels, 2, 2_000_000_009);
    assert_eq!(shown, vec!["[05-06 07:08][QQ1] a".to_string(), "[05-06 07:09]b".to_string()]);
    assert_eq!(trail_lines(&lines, &labels, 2, 2_000_000_010).len(), 1);
    assert_eq!(render_trail(&shown, &vec![5, 5], 5).unwrap(), "[群聊最近消息]\n[05-06 07:09]b\n");
    assert!(render_trail(&shown, &vec![5, 5], 4).is_none());
    assert_eq!(trail_label(0).len(), 13);
}

#[test]
fn trail_modes() {
    assert_eq!(trail_plan(&trail_cfg("window"), MsgKind::Group, false, false), Some((300, 800)));
    assert_eq!(trail_plan(&trail_cfg("all"), MsgKind::Group, false, false), Some((86400, 0)));
    assert_eq!(trail_plan(&trail_cfg("triggered_only"), MsgKind::Group, false, false), None);
    assert_eq!(trail_plan(&trail_cfg("triggered_only"), MsgKind::Group, true, false), Some((86400, 800)));
    assert_eq!(trail_plan(&trail_cfg("window"), MsgKind::Private, true, false), None);
    assert_eq!(trail_noting("g1", &trail_cfg("window")), Some((300, 30)));
    assert_eq!(trail_noting("g1", &trail_cfg("all")), Some((86400, 0)));
    assert_eq!(trail_noting("u1", &trail_cfg("all")), None);
    assert_eq!(window_secs(0), 60);
    assert_eq!(window_secs(u64::MAX), u64::MAX);
}

#[test]
fn who_and_when() {
    assert_eq!(speaker_prefix(9), "[QQ9] ");
    assert_eq!(speaker_prefix(0), "");
    let t = ts_label(1_700_000_000);
    assert_eq!(t.len(), 14);
    assert!(t.starts_with('[') && t.ends_with("] "));
    assert_eq!(ts_label(i64::MAX), "");
    assert_eq!(history_label(0), "");
    assert_eq!(history_prefix(0, 9), "[QQ9] ");
    assert_eq!(history_prefix(1_700_000_000, 0), t);
}

fn budget() -> BudgetConfig {
    BudgetConfig {
        context_tokens: 100,
        reserve_tokens: 20,
        summarize: true,
        placement: "front".into(),
        history_target_tokens: 15,
        recent_max_tokens: 25,
        recent_keep_msgs: 2,
    }
}

fn session(tokens: &[u32]) -> Session {
    let mut s = Session::new("g1", "d", 0);
    for (i, t) in tokens.iter().enumerate() {
        let role = if i % 2 == 0 { "user" } else { "assistant" };
        s.push_id_at(role, &format!("m{i}"), *t, &format!("i{i}"), 9, 0);
    }
    s
}

#[test]
fn the_context_is_brought_within_its_budget() {
    assert_eq!(input_budget(&budget(), 10, 5, 5), 60);
    assert_eq!(input_budget(&budget(), 100, 0, 0), 0);

    // memory in front: folded down to what is recent
    let mut s = session(&[10, 10, 10, 10]);
    let plan = s.begin_trim(&budget(), 10, 5, 5);
    assert_eq!(plan.budget, 60);
    let job = plan.fold.unwrap();
    assert_eq!(job.messages.len(), 2);
    assert_eq!(job.messages[0].content, "[QQ9] m0");
    assert_eq!(job.messages[1].content, "m1");
    assert_eq!(job.old_summary, "");
    let cut = s.end_trim(plan.budget, Some(FoldOutcome::Summary { text: "摘要".into(), tokens: 45 }));
    assert_eq!(cut, 1);
    assert_eq!(s.history.len(), 1);
    assert_eq!(s.summary.as_deref(), Some("摘要"));

    // memory behind: at least two go
    let mut cfg = budget();
    cfg.placement = "back".into();
    let mut s = session(&[6, 5, 5]);
    let plan = s.begin_trim(&cfg, 0, 0, 0);
    assert_eq!(plan.fold.unwrap().messages.len(), 2);
    assert_eq!(s.end_trim(plan.budget, Some(FoldOutcome::Failed)), 0);
    assert!(s.summary.is_none());

    // a summary without room is given up
    let mut s = session(&[5]);
    s.summary = Some("x".into());
    s.summary_tokens = 70;
    let plan = s.begin_trim(&cfg, 20, 0, 0);
    assert!(plan.rewrite && plan.fold.is_none());
    assert!(s.summary.is_none());
    assert_eq!(s.summary_tokens, 0);
    assert_eq!(s.end_trim(plan.budget, None), 0);
    assert_eq!(s.history.len(), 1);

    // switched off: only the cut is left
    cfg.summarize = false;
    let mut s = session(&[50, 40]);
    let plan = s.begin_trim(&cfg, 0, 0, 0);
    assert!(plan.fold.is_none());
    assert_eq!(s.end_trim(plan.budget, None), 1);
    assert_eq!(s.history[0].text, "m1");
}

#[test]
fn requests_have_a_fixed_order() {
    let mut s = session(&[1, 1]);
    s.summary = Some("摘".into());
    s.memory.add_at("记", "user", 9, 9, 0);
    let labels = vec!["[05-06 07:08] ".to_string(), String::new()];
    let m = build_messages(&s, "人设", true, "front", &labels, Some("轨".into()), "问".into());
    let shape: Vec<(&str, &str)> = m.iter().map(|x| (x.role.as_str(), x.content.as_str())).collect();
    assert_eq!(shape[0], ("system", "人设"));
    assert!(shape[1].1.starts_with("(你可以管理长期记忆"));
    assert!(shape[2].1.starts_with("(思考过程请保持简短"));
    assert_eq!(shape[3], ("system", "[先前对话摘要]\n摘"));
    assert!(shape[4].1.starts_with("[长期记忆]\n"));
    assert_eq!(shape[5], ("user", "[05-06 07:08] [QQ9] m0"));
    assert_eq!(shape[6], ("assistant", "m1"));
    assert_eq!(shape[7], ("user", "轨"));
    assert_eq!(shape[8], ("user", "问"));
    let m = build_messages(&s, "人设", true, "back", &labels, None, "问".into());
    assert!(m[6].content.starts_with("[长期记忆]"));
    assert_eq!(m.len(), 8);
    assert_eq!(build_messages(&s, "人设", false, "back", &labels, None, "问".into()).len(), 7);
    let m = assemble(&s, "人设", "问", 5, false, "front", None);
    assert!(m.last().unwrap().content.ends_with("[QQ5] 问"));
    assert_eq!(m.last().unwrap().content.chars().count(), 14 + 6 + 1);
}

fn helper_cfg() -> AgentConfig {
    AgentConfig {
        enable_qq_ops: true,
        enable_sandbox: true,
        sandbox_backend: "jail".into(),
        owner_whitelist: "42, 43".into(),
        allowed_group_roles: "owner,admin".into(),
        allow_private: false,
        max_rounds: 2,
        select_max_tokens: 512,
        step_max_tokens: 10,
        approval_timeout_secs: 5,
        task_timeout_secs: 5,
    }
}

#[test]
fn requests_tell_of_the_helper() {
    let s = session(&[1]);
    let mut helper = helper_cfg();
    helper.enable_qq_ops = true;
    helper.enable_sandbox = false;
    let plain = assemble(&s, "人设", "问", 5, false, "front", None);
    let done = vec!["甲: 好了".to_string(), "乙: 失败: 断网".to_string()];
    let m = whole_request(&s, "人设", "问", 5, false, "front", None, &helper, &done);
    assert_eq!(m.len(), plain.len() + 3);
    for i in 0..3 {
        assert_eq!(m[i].content, plain[i].content);
    }
    assert_eq!((m[3].role.as_str(), m[3].content.as_str()), ("system", agent_guide()));
    assert_eq!(m[4].content, plain[3].content);
    assert_eq!((m[5].role.as_str(), m[5].content.as_str()), ("system", "[子助手模式] QQ 操作:已启用;沙箱:未启用"));
    assert_eq!(
        (m[6].role.as_str(), m[6].content.as_str()),
        ("system", "[子助手任务结果]\n甲: 好了\n乙: 失败: 断网")
    );
    assert!(m[7].content.ends_with("[QQ5] 问"));
    let m = whole_request(&s, "人设", "问", 5, false, "front", None, &helper, &Vec::new());
    assert_eq!(m.len(), plain.len() + 2);
    assert!(m[6].content.ends_with("[QQ5] 问"));
}

/// The minutes of the day that a label gives.
fn minutes(label: &str) -> i64 {
    label[7..9].parse::<i64>().unwrap() * 60 + label[10..12].parse::<i64>().unwrap()
}

#[test]
fn labels_differ_from_utc_by_the_zone_alone() {
    for ts in [0i64, 86_399, 1_700_000_000, 951_782_400] {
        let label = ts_label(ts);
        let back = (minutes(&label) - ts % 86_400 / 60).rem_euclid(1440);
        let hour_on = ts_label(ts + 3600);
        assert_eq!(label.len(), 14);
        assert_eq!((minutes(&hour_on) - (ts + 3600) % 86_400 / 60).rem_euclid(1440), back);
        let ahead = fmt_ts(ts + back * 60);
        let behind = fmt_ts(ts + back * 60 - 86_400);
        assert!(label[1..6] == ahead || label[1..6] == behind);
    }
    assert_eq!(ts_label(8_210_266_876_800), "");
    assert_eq!(ts_label(8_210_266_876_799).len(), 14);
}

#[test]
fn commands_of_users() {
    let mut cfg = Config::default();
    cfg.chat.memory.max_entries = 5;
    let mut s = session(&[3, 4]);
    let run = |s: &mut Session, c: &str| handle_command(s, &cfg, MsgKind::Group, c, 86400);
    assert!(run(&mut s, "/瞎编").is_none());
    assert!(run(&mut s, "/remember").is_none());
    assert_eq!(run(&mut s, "/stats").unwrap().reply, "📊 当前会话:2 条消息,约 7 tokens");
    assert_eq!(run(&mut s, "/memories").unwrap().reply, "🧠 暂无记忆。");
    assert_eq!(run(&mut s, "/remember  ").unwrap().reply, "用法:/remember <内容>");
    let done = run(&mut s, "/remember 甲").unwrap();
    assert_eq!(done.reply, "🧠 已记住: 甲");
    assert!(matches!(done.effect, Effect::MemoryChanged));
    assert_eq!(run(&mut s, "/remember 甲").unwrap().reply, "这条记忆为空或已存在。");
    run(&mut s, "/remember 乙");
    run(&mut s, "/remember 丙");
    assert_eq!(
        run(&mut s, "/memories").unwrap().reply,
        "🧠 本群长期记忆(3 条):\n1. [用户 01-02] 甲\n2. [用户 01-02] 乙\n3. [用户 01-02] 丙\n\n💡 添加:/remember <内容> · 删除:/forget <序号,如 1,3>"
    );
    assert_eq!(run(&mut s, "/forget x").unwrap().reply, "用法:/forget <序号,逗号分隔,如 1,3>");
    assert_eq!(run(&mut s, "/forget ,").unwrap().reply, "用法:/forget <序号,逗号分隔,如 1,3>");
    assert_eq!(run(&mut s, "/forget 9").unwrap().reply, "未找到匹配的序号。");
    assert_eq!(run(&mut s, "/forget 3, 1,1").unwrap().reply, "🗑️ 已删除 2 条记忆。");
    assert_eq!(s.memory.entries[0].text, "乙");
    assert_eq!(run(&mut s, "/model").unwrap().reply, "可用模型: deepseek-v4-flash, deepseek-v4-pro");
    let done = run(&mut s, "/model deepseek-v4-pro").unwrap();
    assert_eq!(done.reply, "✅ 已切换模型: deepseek-v4-pro");
    assert!(matches!(done.effect, Effect::SetModel(m) if m == "deepseek-v4-pro"));
    assert_eq!(
        run(&mut s, "/model x").unwrap().reply,
        "❌ 未找到模型 x,可用: deepseek-v4-flash, deepseek-v4-pro"
    );
    assert_eq!(run(&mut s, "/prompt").unwrap().reply, "可用人设: default");
    assert!(matches!(run(&mut s, "/prompt default").unwrap().effect, Effect::SetPrompt(_)));
    assert_eq!(run(&mut s, "/prompt x").unwrap().reply, "❌ 未找到人设 x,可用: default");
    let done = run(&mut s, "/pause").unwrap();
    assert_eq!(done.reply, "⏸ 本会话已暂停回复,仅接收消息;发送 /resume 恢复。");
    assert!(matches!(done.effect, Effect::SetPaused(true)));
    let done = run(&mut s, "/resume").unwrap();
    assert_eq!(done.reply, "▶ 本会话已恢复回复。");
    assert!(matches!(done.effect, Effect::SetPaused(false)));
    assert!(run(&mut s, "/resume 了").is_none());
    assert_eq!(s.history.len(), 2);
    s.summary = Some("摘".into());
    assert!(run(&mut s, "/stats").unwrap().reply.ends_with("(含摘要)"));
    let done = run(&mut s, "/clear").unwrap();
    assert!(matches!(done.effect, Effect::ClearTrail));
    assert!(s.history.is_empty() && s.summary.is_none());
    assert_eq!(s.memory.entries.len(), 1);
}

#[test]
fn doubts_are_put_in_words() {
    assert_eq!(doubt(&Route::Called("对方 @ 了你"), "你好"), Some(("你好".to_string(), "对方 @ 了你")));
    assert_eq!(doubt(&Route::Named, "小灯在吗"), Some(("小灯在吗".to_string(), "消息提到了你的称呼")));
    assert_eq!(
        doubt(&Route::Chance("天气".into()), "机器人 天气"),
        Some(("天气".to_string(), "主动插话采样命中(是否接话)"))
    );
    assert_eq!(doubt(&Route::Command, "/stats"), None);
    assert_eq!(doubt(&Route::Passed, "x"), None);
}

#[test]
fn a_missed_chance_has_passed() {
    assert!(matches!(sampled(Route::Chance("x".into()), true), Route::Chance(w) if w == "x"));
    assert!(matches!(sampled(Route::Chance("x".into()), false), Route::Passed));
    assert!(matches!(sampled(Route::Named, false), Route::Named));
    let s = steps(&sampled(Route::Chance("x".into()), false), true, true);
    assert_eq!(s.next, Then::Note);
    assert!(s.trail && !s.mark);
}

#[test]
fn a_stream_without_text_is_tried_again() {
    let whole = check_streamed(reply("好"));
    assert_eq!(whole.unwrap().text, "好");
    let thought = LlmReply { reasoning: "嗯".into(), ..reply("") };
    let e = check_streamed(thought).err().unwrap();
    assert_eq!(e, "模型返回空内容");
    assert!(is_empty_reply_err(&e));
    let mut t = Turn::new(&Config::default(), &group("机器人 在吗"));
    t.step(Event::Begun { busy: false });
    t.step(Event::Trimmed { has_model: true });
    assert!(matches!(t.step(Event::Answered { result: Err(e), hint_sent: false }), Action::AskAgain));
}

#[test]
fn tasks_leave_the_reply() {
    let (out, ops, tasks) = digest_reply("好的[任务:QQ 群打卡][记忆:添加 打卡]\n[任务:沙箱 跑一下]");
    assert_eq!(out, "好的");
    assert_eq!(ops.len(), 1);
    assert_eq!(tasks.len(), 2);
    assert!(matches!(tasks[0], (AgentMode::QqOps, ref g) if g == "群打卡"));
    assert!(matches!(tasks[1], (AgentMode::Sandbox, ref g) if g == "跑一下"));
    // a mark without a goal is plain text
    let (out, _, tasks) = digest_reply("[任务:QQ] 打卡");
    assert_eq!(out, "[任务:QQ] 打卡");
    assert!(tasks.is_empty());
    assert_eq!(light_reply("哈[任务:QQ 打卡]"), Some("哈".to_string()));
    let mut t = Turn::new(&Config::default(), &group("机器人 打卡"));
    t.step(Event::Begun { busy: false });
    t.step(Event::Trimmed { has_model: true });
    match t.step(Event::Answered { result: Ok(reply("行[任务:QQ 群打卡]")), hint_sent: false }) {
        Action::Reply { out, tasks, .. } => {
            assert_eq!(out, "行");
            assert_eq!(tasks.len(), 1);
        }
        _ => panic!(),
    }
}

#[test]
fn line_ends_alone_are_not_sent() {
    assert!(send_plan(&group("x"), "\n\n", 5).is_empty());
    assert!(send_plan(&group("x"), "", 5).is_empty());
    assert_eq!(send_plan(&group("x"), "\na", 5)[0].chunk, "a");
}

#[test]
fn memory_in_front_folds_to_what_is_kept() {
    let mut cfg = budget();
    cfg.recent_max_tokens = 30;
    cfg.recent_keep_msgs = 1;
    let mut s = session(&[10, 10, 10, 10]);
    let plan = s.begin_trim(&cfg, 0, 0, 0);
    assert_eq!(plan.fold.unwrap().messages.len(), 3);
    assert_eq!(s.history.len(), 1);
    let mut s = session(&[10, 10, 10]);
    assert!(s.begin_trim(&cfg, 0, 0, 0).fold.is_none());
    cfg.recent_keep_msgs = 9;
    let mut s = session(&[10, 10, 10, 10]);
    assert!(s.begin_trim(&cfg, 0, 0, 0).fold.is_none());
}
