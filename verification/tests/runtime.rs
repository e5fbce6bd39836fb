use lightbot::events::{EventBuf, FrontendEvent, SessionStatus};
use lightbot::json::Json;
use lightbot::napcat::{MsgKind, ParsedMsg};
use lightbot::runtime::{SessionRegistry, PENDING_CAP};

#[test]
fn status_change_events_only_on_transition() {
    let mut rt = SessionRegistry::new();
    assert_eq!(rt.get_status("g1"), SessionStatus::Idle);
    assert_eq!(rt.set_status("g1", SessionStatus::Replying), Some(SessionStatus::Replying));
    assert_eq!(rt.set_status("g1", SessionStatus::Replying), None);
    assert_eq!(rt.get_status("g1"), SessionStatus::Replying);
    assert_eq!(rt.get_status("g2"), SessionStatus::Idle);
}

#[test]
fn live_append_and_remove() {
    let mut rt = SessionRegistry::new();
    rt.live_append("g1", "t1", true, "思");
    rt.live_append("g1", "t1", true, "考");
    rt.live_append("g1", "t1", false, "答");
    let lt = rt.live_get("g1").unwrap();
    assert_eq!(lt.reasoning, "思考");
    assert_eq!(lt.content, "答");
    assert_eq!(lt.turn, "t1");
    rt.live_remove("g1");
    assert!(rt.live_get("g1").is_none());
}

fn msg(i: usize) -> (ParsedMsg, String) {
    (
        ParsedMsg {
            kind: MsgKind::Group,
            group_id: Some(1),
            user_id: i as i64,
            text: format!("m{i}"),
            at_me: false,
            reply_me: false,
            is_self: false,
            raw: Json::null(),
        },
        format!("t{i}"),
    )
}

#[test]
fn pending_cap_and_order() {
    let mut rt = SessionRegistry::new();
    for i in 0..10 {
        let dropped = rt.pending_push("g1", msg(i));
        if i >= PENDING_CAP {
            let d = dropped.expect("应丢弃最旧");
            assert_eq!(d.0.text, format!("m{}", i - PENDING_CAP));
        } else {
            assert!(dropped.is_none());
        }
    }
    assert_eq!(rt.pending_pop("g1").unwrap().0.text, "m2");
    let item = rt.pending_pop("g1").unwrap();
    rt.pending_push_front("g1", item);
    assert_eq!(rt.pending_pop("g1").unwrap().0.text, "m3");
    rt.pending_clear();
    assert!(rt.pending_pop("g1").is_none());
}

#[test]
fn interject_cooldown_counts() {
    let mut rt = SessionRegistry::new();
    assert_eq!(rt.interject_since("g1"), None);
    for _ in 0..5 {
        rt.track_activity("g1", 60);
    }
    rt.mark_interjected("g1");
    assert_eq!(rt.interject_since("g1"), Some(0));
    rt.track_activity("g1", 60);
    assert_eq!(rt.interject_since("g1"), Some(1));
    assert_eq!(rt.activity_len("g1"), 6);
}

#[test]
fn activity_slides() {
    let mut rt = SessionRegistry::new();
    let sec = 1_000_000_000i128;
    rt.track_activity_at("g1", 10, 0);
    rt.track_activity_at("g1", 10, 5 * sec);
    rt.track_activity_at("g1", 10, 10 * sec);
    assert_eq!(rt.activity_len("g1"), 3);
    rt.track_activity_at("g1", 10, 16 * sec);
    assert_eq!(rt.activity_len("g1"), 2);
    assert_eq!(rt.activity_len("g2"), 0);
}

#[test]
fn session_pause_survives_cleanup() {
    let mut rt = SessionRegistry::new();
    assert!(!rt.is_session_paused("g1"));
    assert!(rt.set_session_paused("g1", true));
    assert!(!rt.set_session_paused("g1", true));
    assert!(rt.is_session_paused("g1"));
    rt.cleanup();
    assert!(rt.is_session_paused("g1"));
    assert!(rt.set_session_paused("g1", false));
    assert!(!rt.is_session_paused("g1"));
    rt.cleanup();
    assert!(!rt.is_session_paused("g1"));
}

#[test]
fn cleanup_spares_running_turns() {
    let mut rt = SessionRegistry::new();
    rt.set_status("g1", SessionStatus::Thinking);
    rt.abort_insert("g1");
    rt.pending_push("g1", msg(1));
    rt.live_append("g1", "t", false, "x");
    rt.live_append("g2", "t", false, "y");
    rt.abort_insert("g2");
    rt.cleanup_at(0);
    assert_eq!(rt.get_status("g1"), SessionStatus::Idle);
    assert!(rt.abort_send("g1"));
    assert!(rt.live_get("g1").is_some());
    assert!(rt.live_get("g2").is_none());
    assert!(!rt.abort_send("g2"));
    assert_eq!(rt.pending_pop("g1").unwrap().1, "t1");
    rt.cleanup_at(0);
    assert!(!rt.abort_send("g1"));
}

#[test]
fn stopping_replies() {
    let mut rt = SessionRegistry::default();
    rt.abort_insert("g1");
    rt.abort_insert("u2");
    rt.abort_insert("g3");
    rt.abort_remove("u2");
    assert_eq!(rt.abort_send_all(), vec!["g1".to_string(), "g3".to_string()]);
    assert!(!rt.abort_send("u2"));
}

#[test]
fn trail_window_and_cap() {
    let mut rt = SessionRegistry::new();
    rt.trail_push("g1", "a", 1, 3600, 2);
    rt.trail_push("g1", "b", 2, 3600, 2);
    rt.trail_push("g1", "c", 3, 3600, 2);
    let t = rt.trail_get("g1");
    assert_eq!(t.len(), 2);
    assert_eq!(t[0].2, "b");
    rt.trail_remove("g1");
    assert!(rt.trail_get("g1").is_empty());
}

#[test]
fn the_trail_forgets() {
    let mut rt = SessionRegistry::new();
    let sec = 1_000_000_000u128;
    rt.trail_push_at("g1", " 早 ", 1, 60, 0, 100 * sec);
    rt.trail_push_at("g1", "  ", 1, 60, 0, 120 * sec);
    rt.trail_push_at("g1", "中", 2, 60, 0, 159 * sec);
    assert_eq!(rt.trail_get("g1").len(), 2);
    rt.trail_push_at("g1", "晚", 3, 60, 0, 160 * sec);
    let t = rt.trail_get("g1");
    assert_eq!(t.len(), 2);
    assert_eq!(t[0], (159 * sec, 2, "中".to_string()));
    rt.cleanup_at((159 + 86400) * sec);
    assert_eq!(rt.trail_get("g1").len(), 1);
}

#[test]
fn status_labels() {
    assert_eq!(SessionStatus::Idle.as_str(), "idle");
    assert_eq!(SessionStatus::Thinking.label(), "思考中");
}

#[test]
fn event_buf_seq() {
    let mut buf = EventBuf::new();
    buf.push(FrontendEvent::Log { level: "info".into(), msg: "a".into() });
    buf.push(FrontendEvent::Log { level: "info".into(), msg: "b".into() });
    let (evs, latest) = buf.after(0);
    assert_eq!(evs.len(), 2);
    assert_eq!(latest, 2);
    let (evs2, _) = buf.after(1);
    assert_eq!(evs2.len(), 1);
}

#[test]
fn event_buf_is_bounded() {
    let mut buf = EventBuf::default();
    for i in 0..2005u32 {
        assert!(buf.has_room());
        buf.push(FrontendEvent::Log { level: "info".into(), msg: i.to_string() });
    }
    let (evs, latest) = buf.after(0);
    assert_eq!(evs.len(), 2000);
    for (k, (n, e)) in evs.iter().enumerate() {
        assert_eq!(*n, 6 + k as u64);
        assert!(matches!(e, FrontendEvent::Log { msg, .. } if *msg == (5 + k).to_string()));
    }
    assert_eq!(latest, 2005);
    assert_eq!(buf.after(2003).0.len(), 2);
    assert!(buf.after(2005).0.is_empty());
}
