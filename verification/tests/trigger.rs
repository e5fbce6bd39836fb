use lightbot::config::Config;
use lightbot::interject::{draw, gate, Gate};
use lightbot::json::parse_json;
use lightbot::napcat::{parse_message, ParsedMsg};
use lightbot::trigger::{
    contains_any, hook_hit, ignore_prefix_hit, is_water, lean, passive_hit, soft_at_hit, strip_keyword,
    strip_quote_prefix, Lean,
};

fn msg_group(text: &str) -> ParsedMsg {
    let v = parse_json(&format!(
        "{{\"message_type\":\"group\",\"group_id\":1,\"user_id\":2,\"message\":[{{\"type\":\"text\",\"data\":{{\"text\":\"{text}\"}}}}]}}"
    ))
    .unwrap();
    parse_message(&v, Some(10001))
}

#[test]
fn soft_at_detects_names() {
    let cfg = Config::default();
    assert!(soft_at_hit(&cfg, "小灯你怎么看"));
    assert!(!soft_at_hit(&cfg, "灯宝在吗"));
    assert!(!soft_at_hit(&cfg, "今天天气不错"));
    let mut cfg2 = cfg.clone();
    cfg2.chat.interject.names = "小灯,灯宝".into();
    assert!(soft_at_hit(&cfg2, "灯宝在吗"));
    cfg2.chat.interject.soft_at_reply = false;
    assert!(!soft_at_hit(&cfg2, "小灯你怎么看"));
}

#[test]
fn water_detection() {
    assert!(is_water("6"));
    assert!(is_water("哈哈"));
    assert!(is_water("[表情] [表情]"));
    assert!(is_water("。。。"));
    assert!(!is_water("今天吃什么"));
    assert!(!is_water("哈哈哈哈哈哈"));
    assert!(is_water(""));
    assert!(is_water("!?……·"));
}

#[test]
fn passive_rules_unchanged() {
    let cfg = Config::default();
    let mut m = msg_group("你好");
    m.at_me = true;
    assert!(passive_hit(&cfg, &m));
    let v = parse_json(
        r#"{"message_type":"private","user_id":2,"message":[{"type":"text","data":{"text":"hi"}}]}"#,
    )
    .unwrap();
    let pm = parse_message(&v, Some(10001));
    assert!(passive_hit(&cfg, &pm));
    let m2 = msg_group("今天天气不错");
    assert!(!passive_hit(&cfg, &m2));
}

#[test]
fn strip_keyword_works() {
    let kw = "小灯 ";
    assert_eq!(strip_keyword("小灯 你好", kw), "你好");
    assert_eq!(strip_keyword("你好", kw), "你好");
    assert_eq!(strip_keyword("机器人 你好", "小灯,机器人"), "你好");
    assert_eq!(strip_keyword("小灯你好", "小灯, 机器人"), "你好");
    assert_eq!(strip_keyword("灯你好", "小灯,机器人"), "灯你好");
}

#[test]
fn keyword_list_multi() {
    let mut cfg = Config::default();
    cfg.napcat.group_trigger = "keyword".into();
    cfg.napcat.keyword = "小灯,机器人".into();
    assert!(passive_hit(&cfg, &msg_group("机器人今天吃什么")));
    assert!(passive_hit(&cfg, &msg_group("小灯在吗")));
    assert!(!passive_hit(&cfg, &msg_group("今天吃什么")));
    cfg.napcat.keyword = "  , ".into();
    assert!(!passive_hit(&cfg, &msg_group("小灯在吗")));
}

#[test]
fn switches_and_modes() {
    let mut cfg = Config::default();
    let mut m = msg_group("关键词");
    m.reply_me = true;
    assert!(passive_hit(&cfg, &m));
    cfg.napcat.reply_quoted = false;
    assert!(!passive_hit(&cfg, &m));
    cfg.napcat.keyword = "关键".into();
    assert!(passive_hit(&cfg, &m));
    cfg.napcat.group_trigger = "at".into();
    assert!(!passive_hit(&cfg, &m));
    m.at_me = true;
    assert!(passive_hit(&cfg, &m));
    cfg.chat.enable_group = false;
    assert!(!passive_hit(&cfg, &m));
}

#[test]
fn leanings() {
    let mut cfg = Config::default();
    assert_eq!(lean(&cfg, "哈哈"), Lean::Water);
    assert_eq!(lean(&cfg, "大家觉得这个怎么样"), Lean::Hook);
    assert_eq!(lean(&cfg, "今天天气不错"), Lean::Plain);
    assert!(hook_hit(&cfg, "为什么呢"));
    assert!(contains_any("abc", "x, b"));
    assert!(!contains_any("abc", " ,"));
    cfg.chat.interject.enabled = false;
    assert_eq!(lean(&cfg, "今天天气不错"), Lean::Never);
}

#[test]
fn prefixes() {
    assert_eq!(strip_quote_prefix("[引用回复] /resume"), "/resume");
    assert_eq!(strip_quote_prefix("[引用QQ999] 收到"), "收到");
    assert_eq!(strip_quote_prefix("[引用] "), "");
    assert_eq!(strip_quote_prefix("[引用"), "[引用");
    assert_eq!(strip_quote_prefix("[图片] x"), "[图片] x");
    assert!(ignore_prefix_hit("#,//", " [引用] #别理我"));
    assert!(!ignore_prefix_hit("#,//", "理我#"));
    assert!(!ignore_prefix_hit("", "x"));
}

#[test]
fn the_gate_to_joining_in() {
    let mut ij = Config::default().chat.interject;
    assert_eq!(gate(&ij, 5, 10, None), Gate::Draw);
    assert_eq!(gate(&ij, 5, 10, Some(3)), Gate::Cooling(7));
    assert_eq!(gate(&ij, 5, 10, Some(10)), Gate::Draw);
    assert_eq!(gate(&ij, 0, 0, Some(0)), Gate::Cooling(1));
    ij.mode = "fixed_rate".into();
    assert_eq!(gate(&ij, 5, 10, Some(4)), Gate::Cooling(1));
    assert_eq!(gate(&ij, 5, 10, Some(5)), Gate::Hit);
    ij.mode = "off".into();
    assert_eq!(gate(&ij, 5, 10, None), Gate::Off);
    ij.mode = "fixed".into();
    ij.enabled = false;
    assert_eq!(gate(&ij, 5, 10, None), Gate::Off);
}

#[test]
fn draws_are_spread() {
    let (next, a) = draw(0x9e3779b97f4a7c15);
    assert_eq!(next, 0x3c6ef372fe94f82a);
    assert_eq!(a, 0x9e3779b97f4a7c15u64.wrapping_mul(0x2545f4914f6cdd1d) >> 11);
    let (_, b) = draw(next);
    assert_ne!(a, b);
}
