use lightbot::config::Config;
use lightbot::json::{parse_json, Json};
use lightbot::napcat::{
    authorized, ban_seconds, build_ws_url, call_text, changed_status, configured_id, echo_name,
    extract_text_for_display, get_login_info, initial_status, is_current, known_id, next_backoff, parse_incoming,
    parse_message, parse_notice, parse_request, read_frame, send_group_msg, send_private_msg, send_result,
    BotEvent, Frame, MsgKind, SendOutcome,
};

fn json(s: &str) -> Json {
    parse_json(s).unwrap()
}

#[test]
fn parse_array_msg() {
    let v = json(
        r#"{"message_type": "group", "group_id": 123, "user_id": 456,
            "message": [
                {"type": "at", "data": {"qq": "789"}},
                {"type": "text", "data": {"text": " 你好"}},
                {"type": "image", "data": {"file": "x.png"}}
            ]}"#,
    );
    let m = parse_message(&v, Some(789));
    assert!(m.at_me);
    assert_eq!(m.text, "你好[图片]");
    assert!(!m.is_self);
    assert_eq!(m.group_id, Some(123));
    assert!(parse_message(&v, Some(456)).is_self);
}

#[test]
fn parse_cq_msg() {
    let v = json(
        r#"{"message_type": "private", "user_id": 456, "message": "[CQ:at,qq=789]hello[CQ:face,id=1]"}"#,
    );
    let m = parse_message(&v, Some(789));
    assert!(m.at_me);
    assert_eq!(m.text, "hello[表情]");
    assert_eq!(m.kind, MsgKind::Private);
}

#[test]
fn at_others_and_reply_targets() {
    let v = json(
        r#"{"message_type": "group", "group_id": 1, "user_id": 2,
            "message": [{"type": "at", "data": {"qq": "999"}}, {"type": "text", "data": {"text": "在吗"}}]}"#,
    );
    let m = parse_message(&v, Some(789));
    assert!(!m.at_me);
    assert_eq!(m.text, "@QQ999 在吗");

    assert!(!parse_message(&v, None).at_me);
    let v_all = json(
        r#"{"message_type": "group", "group_id": 1, "user_id": 2,
            "message": [{"type": "at", "data": {"qq": "all"}}, {"type": "text", "data": {"text": "hi"}}]}"#,
    );
    assert!(parse_message(&v_all, None).at_me);

    let vq1 = json(
        r#"{"message_type": "group", "group_id": 1, "user_id": 2,
            "message": [{"type": "reply", "data": {"id": "1", "qq": "789"}}, {"type": "text", "data": {"text": "收到"}}]}"#,
    );
    let mq = parse_message(&vq1, Some(789));
    assert!(mq.reply_me);
    assert_eq!(mq.text, "[引用回复] 收到");

    let vq2 = json(
        r#"{"message_type": "group", "group_id": 1, "user_id": 2,
            "message": [{"type": "reply", "data": {"id": "1", "qq": "999"}}, {"type": "text", "data": {"text": "收到"}}]}"#,
    );
    let mq2 = parse_message(&vq2, Some(789));
    assert!(!mq2.reply_me);
    assert_eq!(mq2.text, "[引用QQ999] 收到");

    let vq3 = json(
        r#"{"message_type": "group", "group_id": 1, "user_id": 2,
            "message": [{"type": "reply", "data": {"id": "1"}}, {"type": "text", "data": {"text": "hi"}}]}"#,
    );
    assert!(!parse_message(&vq3, Some(789)).reply_me);

    let vc = json(
        r#"{"message_type": "group", "group_id": 1, "user_id": 2, "message": "[CQ:reply,id=1,qq=999]hello"}"#,
    );
    let mc = parse_message(&vc, Some(789));
    assert!(!mc.reply_me);
    assert_eq!(mc.text, "[引用QQ999] hello");
}

#[test]
fn parse_notice_all_types() {
    let cases = [
        ("group_increase", r#"{"post_type":"notice","notice_type":"group_increase","group_id":1,"user_id":2,"operator_id":3,"sub_type":"invite"}"#),
        ("group_ban", r#"{"post_type":"notice","notice_type":"group_ban","group_id":1,"user_id":2,"operator_id":3,"duration":600}"#),
        ("notify_poke", r#"{"post_type":"notice","notice_type":"notify","sub_type":"poke","group_id":1,"user_id":2,"target_id":4}"#),
        ("group_upload", r#"{"post_type":"notice","notice_type":"group_upload","group_id":1,"user_id":2,"file":{"name":"a.zip"}}"#),
        ("xxx_new_thing", r#"{"post_type":"notice","notice_type":"xxx_new_thing","group_id":1}"#),
    ];
    for (t, v) in &cases {
        let n = parse_notice(&json(v), "10.0");
        if *t == "notify_poke" {
            assert_eq!(n.notice_type, "notify");
            assert!(n.desc.contains("戳了戳"), "desc: {}", n.desc);
        } else {
            assert_eq!(n.notice_type, *t);
        }
        assert!(!n.desc.is_empty());
    }
    let n = parse_notice(&json(cases[4].1), "");
    assert!(n.desc.starts_with("通知[xxx_new_thing]"));
}

#[test]
fn notices_in_words() {
    let desc = |v: &str| parse_notice(&json(v), "10.0").desc;
    assert_eq!(
        desc(r#"{"notice_type":"group_ban","user_id":2,"operator_id":3,"duration":600}"#),
        "2 被禁言 10.0 分钟(操作者 3)"
    );
    assert_eq!(desc(r#"{"notice_type":"group_ban","user_id":2}"#), "2 被永久禁言(操作者 未知)");
    assert_eq!(
        desc(r#"{"notice_type":"group_ban","sub_type":"lift_ban","user_id":2,"duration":5}"#),
        "2 被解除禁言(操作者 未知)"
    );
    assert_eq!(ban_seconds(&json(r#"{"duration":5}"#)), Some(5));
    assert_eq!(ban_seconds(&json(r#"{"sub_type":"lift_ban"}"#)), None);
    assert_eq!(desc(r#"{"notice_type":"group_admin","sub_type":"set","user_id":2}"#), "2 成为管理员");
    assert_eq!(desc(r#"{"notice_type":"group_admin","user_id":2}"#), "2 被取消管理员");
    assert_eq!(
        desc(r#"{"notice_type":"group_decrease","sub_type":"kick","user_id":2,"operator_id":9}"#),
        "2 被移出群(操作者 9)"
    );
    assert_eq!(desc(r#"{"notice_type":"group_upload","user_id":2}"#), "群文件上传: 2 上传了「文件」");
    assert_eq!(
        desc(r#"{"notice_type":"group_recall","user_id":2,"operator_id":9,"message_id":8}"#),
        "2 撤回了一条消息(操作者 9,消息ID 8)"
    );
    assert_eq!(desc(r#"{"notice_type":"notify","sub_type":"poke","user_id":2}"#), "2 戳了戳某人");
    assert_eq!(
        desc(r#"{"notice_type":"notify","sub_type":"odd"}"#),
        "通知[notify/odd]: {\"notice_type\":\"notify\",\"sub_type\":\"odd\"}"
    );
    assert_eq!(desc(r#"{"notice_type":"group_poke","user_id":2}"#), "2 戳了戳 未知");
    assert_eq!(desc(r#"{"notice_type":"group_card","user_id":2,"card_new":"x"}"#), "2 的群名片变为「x」");
    assert_eq!(desc("{}"), "通知[unknown]: {}");
}

#[test]
fn segments_and_codes() {
    let all = json(
        r#"{"message": [{"type":"mface"},{"type":"flashtransfer"},{"type":"odd","data":{"text":"t"}},{"type":"odd"},{"type":"at","data":{"qq":""}}]}"#,
    );
    assert_eq!(extract_text_for_display(&all), "[商城表情] [闪照] t");
    assert_eq!(extract_text_for_display(&json(r#"{"message": "a[CQ:image,file=x]b[CQ:odd]c[CQ:at"}"#)), "a[图片] bc");
    assert_eq!(extract_text_for_display(&json(r#"{"message": "[CQ:at,qq=all]"}"#)), "@全体成员");
    assert_eq!(extract_text_for_display(&json(r#"{"message": 5}"#)), "");
    assert_eq!(extract_text_for_display(&json("{}")), "");
}

#[test]
fn incoming_events() {
    assert!(parse_incoming("不是 json", None, "").is_none());
    assert!(parse_incoming("{}", None, "").is_none());
    assert!(parse_incoming(r#"{"post_type":"message_sent"}"#, None, "").is_none());
    assert!(matches!(parse_incoming(r#"{"post_type":"message"}"#, None, ""), Some(BotEvent::Message(_))));
    assert!(matches!(parse_incoming(r#"{"post_type":"notice"}"#, None, ""), Some(BotEvent::Notice(_))));
    match parse_incoming(r#"{"post_type":"request","request_type":"friend","user_id":5,"comment":"hi","flag":"f"}"#, None, "") {
        Some(BotEvent::Request(r)) => {
            assert_eq!(r.request_type, "friend");
            assert_eq!(r.comment, "hi");
        }
        _ => panic!(),
    }
    assert_eq!(parse_request(&json("{}")).request_type, "unknown");
    match parse_incoming(
        r#"{"post_type":"meta_event","meta_event_type":"heartbeat","status":{"online":false},"interval":30000}"#,
        None,
        "",
    ) {
        Some(BotEvent::Heartbeat { online, good, interval_ms }) => {
            assert!(!online);
            assert!(good);
            assert_eq!(interval_ms, 30000);
        }
        _ => panic!(),
    }
    match parse_incoming(r#"{"post_type":"meta_event","meta_event_type":"lifecycle"}"#, None, "") {
        Some(BotEvent::Lifecycle(s)) => assert_eq!(s, "lifecycle"),
        _ => panic!(),
    }
    match parse_incoming(r#"{"post_type":"new"}"#, None, "") {
        Some(BotEvent::Lifecycle(s)) => assert_eq!(s, "未知事件类型: new"),
        _ => panic!(),
    }
}

#[test]
fn frames_are_told_apart() {
    assert!(matches!(read_frame("x", 0, ""), Frame::Ignore));
    assert!(matches!(
        read_frame(r#"{"echo":"lb_self","data":{"user_id":10001}}"#, 0, ""),
        Frame::SelfId(10001)
    ));
    assert!(matches!(read_frame(r#"{"echo":"lb_self"}"#, 0, ""), Frame::Ignore));
    match read_frame(r#"{"echo":"lb_3","status":"ok","data":{"a":1}}"#, 0, "") {
        Frame::Reply { echo, result } => {
            assert_eq!(echo, "lb_3");
            assert_eq!(result.unwrap().i64_field("a"), Some(1));
        }
        _ => panic!(),
    }
    match read_frame(r#"{"echo":"lb_3","status":"failed","message":"不行"}"#, 0, "") {
        Frame::Reply { result, .. } => assert_eq!(result.err().unwrap(), "不行"),
        _ => panic!(),
    }
    match read_frame(r#"{"echo":"lb_3"}"#, 0, "") {
        Frame::Reply { result, .. } => assert_eq!(result.err().unwrap(), "动作执行失败"),
        _ => panic!(),
    }
    match read_frame(r#"{"post_type":"message","user_id":7}"#, 7, "") {
        Frame::Event(BotEvent::Message(m)) => assert!(m.is_self),
        _ => panic!(),
    }
    assert_eq!(known_id(0), None);
    assert_eq!(known_id(7), Some(7));
}

#[test]
fn actions_as_text() {
    assert_eq!(echo_name(12), "lb_12");
    assert_eq!(
        call_text(&send_group_msg(7, "他说\"好\""), "lb_1"),
        "{\"action\":\"send_group_msg\",\"echo\":\"lb_1\",\"params\":{\"group_id\":7,\"message\":\"他说\\\"好\\\"\"}}"
    );
    assert_eq!(
        call_text(&send_private_msg(-7, "x"), "e"),
        "{\"action\":\"send_private_msg\",\"echo\":\"e\",\"params\":{\"message\":\"x\",\"user_id\":-7}}"
    );
    assert_eq!(
        call_text(&get_login_info(), "lb_self"),
        "{\"action\":\"get_login_info\",\"echo\":\"lb_self\",\"params\":{}}"
    );
    assert_eq!(send_result(SendOutcome::NotConnected).err().unwrap(), "未连接到 NapCat");
    assert_eq!(send_result(SendOutcome::Closed).err().unwrap(), "连接已断开");
    assert_eq!(send_result(SendOutcome::TimedOut).err().unwrap(), "动作超时(15s)");
    assert!(send_result(SendOutcome::Replied(Ok(Json::null()))).unwrap().is_null());
    assert_eq!(send_result(SendOutcome::Replied(Err("e".into()))).err().unwrap(), "e");
}

#[test]
fn connection_settings() {
    let mut cfg = Config::default();
    assert_eq!(build_ws_url(&cfg), "ws://127.0.0.1:3001");
    cfg.napcat.access_token = " tok ".into();
    assert_eq!(build_ws_url(&cfg), "ws://127.0.0.1:3001?access_token=tok");
    cfg.napcat.ws_url = "ws://h?x=1".into();
    assert_eq!(build_ws_url(&cfg), "ws://h?x=1&access_token=tok");
    assert_eq!(initial_status(&cfg).endpoint, "ws://h?x=1");
    cfg.napcat.mode = "reverse".into();
    assert_eq!(initial_status(&cfg).endpoint, "0.0.0.0:3005");
    assert_eq!(configured_id(&cfg), 0);
    cfg.napcat.self_id = " 10001 ".into();
    assert_eq!(configured_id(&cfg), 10001);
    let s = changed_status(true, "forward", "e", None, 7, "");
    assert_eq!(s.self_id, Some(7));
    assert_eq!(changed_status(true, "forward", "e", Some(8), 7, "").self_id, Some(8));
    assert!(authorized("", "x"));
    assert!(authorized("t", "Bearer t"));
    assert!(!authorized("t", "t"));
    assert_eq!(next_backoff(1, false), 2);
    assert_eq!(next_backoff(16, false), 30);
    assert_eq!(next_backoff(30, false), 30);
    assert_eq!(next_backoff(30, true), 1);
    assert!(is_current(Some(3), 3));
    assert!(!is_current(Some(4), 3));
    assert!(!is_current(None, 3));
}
