use lightbot::commands::{
    check_llm_test, dispatch, request_notice, status_log, status_view, trial_result, validate_config, Dispatch,
    Trial,
};
use lightbot::config::{Config, ModelConfig};
use lightbot::estimate::{compute_drop, count_chars};
use lightbot::events::FrontendEvent;
use lightbot::napcat::{parse_incoming, changed_status};
use lightbot::placement::{cooldown_secs, PlacementController, Scheme, EVAL_EVERY, STREAK_NEEDED};

#[test]
fn defaults() {
    let cfg = Config::default();
    assert_eq!(cfg.active_model, "deepseek-v4-flash");
    assert_eq!(cfg.models.len(), 2);
    assert_eq!(cfg.active_model().unwrap().model, "deepseek-v4-flash");
    assert_eq!(cfg.models[0].thinking, "auto");
    assert_eq!(cfg.models[0].reasoning_effort, "high");
    assert_eq!(cfg.models[0].base_url, "https://api.deepseek.com");
    assert_eq!(cfg.napcat.reverse_port, 3005);
    assert_eq!(cfg.chat.context_tokens, 8192);
    assert_eq!(cfg.prompt().unwrap().name, "默认助手");
    assert!(cfg.prompts[0].prompt.ends_with("- 不确定的事情要如实说明。"));
}

#[test]
fn choices_fall_back_to_the_first() {
    let mut cfg = Config::default();
    cfg.active_model = "没有".into();
    assert_eq!(cfg.active_model().unwrap().name, "deepseek-v4-flash");
    assert!(cfg.find_model("deepseek-v4-pro").is_some());
    cfg.models.clear();
    assert!(cfg.active_model().is_none());
    cfg.active_prompt = "没有".into();
    assert_eq!(cfg.prompt().unwrap().id, "default");
    cfg.prompts.clear();
    assert!(cfg.prompt().is_none());
}

#[test]
fn settings_are_checked() {
    let good = Config::default();
    let warm = vec![true, true];
    validate_config(&good, &warm).unwrap();
    let mut c = good.clone();
    c.models[1].name = "deepseek-v4-flash".into();
    assert_eq!(validate_config(&c, &warm).unwrap_err(), "模型名称重复: deepseek-v4-flash");
    c.models[1].name = " ".into();
    assert_eq!(validate_config(&c, &warm).unwrap_err(), "模型名称不能为空");
    assert_eq!(validate_config(&good, &vec![true, false]).unwrap_err(), "温度需在 0~2 之间");
    let mut c = good.clone();
    c.active_model = "x".into();
    assert_eq!(validate_config(&c, &warm).unwrap_err(), "当前激活模型不在模型列表中");
    let mut c = good.clone();
    c.active_prompt = "x".into();
    assert_eq!(validate_config(&c, &warm).unwrap_err(), "当前激活人设不在列表中");
    c.prompts.clear();
    assert_eq!(validate_config(&c, &warm).unwrap_err(), "至少需要一个人设");
    c.models.clear();
    assert_eq!(validate_config(&c, &vec![]).unwrap_err(), "至少需要一个模型配置");
}

#[test]
fn drop_only_head() {
    let toks = [10, 10, 10, 10, 10];
    assert_eq!(compute_drop(&toks, 25, 0), 3);
    assert_eq!(compute_drop(&toks, 40, 0), 1);
    assert_eq!(compute_drop(&toks, 50, 0), 0);
    assert_eq!(compute_drop(&toks, 0, 2), 3);
    assert_eq!(compute_drop(&[1000], 10, 1), 0);
}

#[test]
fn characters_are_counted() {
    assert_eq!(count_chars("hi,你好"), (3, 2));
    assert_eq!(count_chars(""), (0, 0));
}

#[test]
fn controller_requires_streak_and_respects_cooldown() {
    let mut ctl = PlacementController::default();
    let now = 1_000_000;
    for _ in 0..(STREAK_NEEDED - 1) {
        ctl.feed_round(false);
        assert!(ctl.evaluate(true, Scheme::One, now).is_none());
    }
    ctl.feed_round(false);
    let p = ctl.evaluate(true, Scheme::One, now).expect("应发出提案");
    assert_eq!(p.to.as_placement(), "front");
    assert!(ctl.pending.is_some());

    assert!(ctl.evaluate(true, Scheme::One, now).is_none());
    ctl.settle(now);
    assert!(ctl.pending.is_none());
    for _ in 0..STREAK_NEEDED {
        ctl.feed_round(false);
        assert!(ctl.evaluate(true, Scheme::One, now).is_none(), "冷却期内不应提案");
    }
    ctl.cooldown_until = now - 1;
    for _ in 0..STREAK_NEEDED {
        ctl.feed_round(false);
        ctl.evaluate(true, Scheme::One, now);
    }
    assert!(ctl.pending.is_some());
}

#[test]
fn decisions_on_the_placement() {
    let mut ctl = PlacementController::default();
    for i in 0..EVAL_EVERY {
        assert!(!ctl.due());
        ctl.feed_count(i);
    }
    assert!(ctl.due());
    assert_eq!(ctl.changed_in_window, EVAL_EVERY - 1);
    for _ in 0..STREAK_NEEDED {
        ctl.evaluate(true, Scheme::Two, 0);
    }
    let kept = ctl;
    assert_eq!(ctl.decide(true, "front", 10, 60), Some(Scheme::One));
    assert_eq!(ctl.cooldown_until, 70);
    let mut again = kept;
    assert_eq!(again.decide(true, "back", 10, 60), None);
    let mut no = kept;
    assert_eq!(no.decide(false, "front", i64::MAX, 60), None);
    assert_eq!(no.cooldown_until, i64::MAX);
    let mut doubt = PlacementController::default();
    doubt.evaluate(true, Scheme::One, 0);
    doubt.evaluate(false, Scheme::One, 0);
    assert_eq!(doubt.streak, 0);
    assert_eq!(cooldown_secs(0), 60);
    assert_eq!(cooldown_secs(u64::MAX), i64::MAX);
}

#[test]
fn schemes() {
    assert_eq!(Scheme::from_placement("front"), Scheme::Two);
    assert_eq!(Scheme::from_placement("back"), Scheme::One);
    assert_eq!(Scheme::from_placement(""), Scheme::One);
    assert_eq!(Scheme::One.name(), "方案一(历史→记忆→提问)");
    assert_eq!(Scheme::Two.other(), Scheme::One);
}

#[test]
fn events_find_their_way() {
    let ev = |s: &str| parse_incoming(s, None, "").unwrap();
    assert!(matches!(dispatch(ev(r#"{"post_type":"message"}"#)), Dispatch::Handle(_)));
    match dispatch(ev(r#"{"post_type":"request","request_type":"friend","user_id":5,"comment":"hi"}"#)) {
        Dispatch::Show(FrontendEvent::Notice { desc, notice_type }) => {
            assert_eq!(desc, "收到好友请求: 5 (留言: hi)");
            assert_eq!(notice_type, "request_friend");
        }
        _ => panic!(),
    }
    match dispatch(ev(r#"{"post_type":"notice","notice_type":"friend_add","user_id":5}"#)) {
        Dispatch::Show(FrontendEvent::Notice { desc, .. }) => assert_eq!(desc, "新好友: 5"),
        _ => panic!(),
    }
    match dispatch(ev(r#"{"post_type":"meta_event","meta_event_type":"lifecycle"}"#)) {
        Dispatch::Show(FrontendEvent::Log { msg, .. }) => assert_eq!(msg, "连接事件: lifecycle"),
        _ => panic!(),
    }
    assert!(matches!(
        dispatch(ev(r#"{"post_type":"meta_event","meta_event_type":"heartbeat"}"#)),
        Dispatch::Watch { online: true, good: true, interval_ms: 0 }
    ));
    let req = lightbot::napcat::parse_request(&lightbot::json::parse_json("{\"request_type\":\"group\"}").unwrap());
    assert_eq!(request_notice(&req).0, "收到加群请求: 0 (留言: )");
}

#[test]
fn the_state_of_the_bot() {
    let mut cfg = Config::default();
    let s = changed_status(true, "forward", "e", None, 77, "断");
    assert_eq!(status_log(&s), "连接状态: 已连接 · 断");
    let v = status_view(&cfg, &Some(s.clone()), true, false);
    assert!(v.connected && v.running && !v.paused);
    assert_eq!(v.self_id.as_deref(), Some("77"));
    assert_eq!(v.last_error, "断");
    cfg.napcat.self_id = " 88 ".into();
    assert_eq!(status_view(&cfg, &Some(s), true, false).self_id.as_deref(), Some("88"));
    let v = status_view(&Config::default(), &None, false, true);
    assert_eq!(v.self_id, None);
    assert_eq!(v.endpoint, "ws://127.0.0.1:3001");
}

#[test]
fn trials() {
    let mut m = ModelConfig::default();
    assert_eq!(check_llm_test(&m).unwrap_err(), "请先填写 API Key");
    m.api_key = "k".into();
    check_llm_test(&m).unwrap();
    assert!(trial_result(Trial::Listen(3005, None)).unwrap().starts_with("✓ 反向 WS 端口 3005 可正常监听"));
    assert_eq!(trial_result(Trial::Listen(80, Some("占用".into()))).unwrap_err(), "✗ 端口 80 无法监听: 占用");
    assert_eq!(trial_result(Trial::Connected).unwrap(), "✓ 连接成功,NapCat 在线");
    assert_eq!(trial_result(Trial::Refused("x".into())).unwrap_err(), "✗ 连接失败: x");
    assert!(trial_result(Trial::TimedOut).is_err());
}
