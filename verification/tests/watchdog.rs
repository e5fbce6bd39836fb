use lightbot::watchdog::ConnectionWatchdog;

#[test]
fn qq_offline_and_recover() {
    let mut w = ConnectionWatchdog::default();
    w.on_status(true);
    let cs = w.on_heartbeat(true, true, 30000);
    assert!(cs.is_empty());
    let cs = w.on_heartbeat(false, true, 30000);
    assert_eq!(cs.len(), 1);
    assert!(cs[0].raised);
    assert!(cs[0].text.contains("离线"));
    assert!(w.alarming());
    assert!(w.on_heartbeat(false, false, 30000).is_empty());
    let cs = w.on_heartbeat(true, true, 30000);
    assert_eq!(cs.len(), 1);
    assert!(!cs[0].raised);
    assert!(!w.alarming());
}

#[test]
fn disconnect_resets_baseline() {
    let mut w = ConnectionWatchdog::default();
    w.on_status(true);
    w.on_heartbeat(true, true, 30000);
    w.on_heartbeat(true, true, 30000);
    w.on_status(false);
    assert!(!w.alarming());
    assert_eq!(w.hb_count(), 0);
    w.on_status(true);
    assert!(w.check().is_empty());
}

#[test]
fn heartbeat_loss_not_detected_without_baseline() {
    let mut w = ConnectionWatchdog::default();
    w.on_status(true);
    assert!(w.check().is_empty());
    w.on_heartbeat(true, true, 0);
    assert!(w.check().is_empty());
}

#[test]
fn heartbeat_loss_detected_and_recovered() {
    let mut w = ConnectionWatchdog::default();
    w.on_status(true);
    w.on_heartbeat(true, true, 30000);
    w.on_heartbeat(true, true, 30000);
    w.backdate_last_hb(60);
    assert!(w.check().is_empty());
    w.backdate_last_hb(120);
    let cs = w.check();
    assert_eq!(cs.len(), 1);
    assert!(cs[0].raised);
    assert!(cs[0].text.contains("心跳已丢失"));
    assert!(w.alarming());
    w.backdate_last_hb(300);
    assert!(w.check().is_empty());
    let cs = w.on_heartbeat(true, true, 30000);
    assert_eq!(cs.len(), 1);
    assert!(!cs[0].raised);
    assert!(!w.alarming());
}

#[test]
fn patience_by_the_measured_interval() {
    let sec = 1_000_000_000i128;
    let mut w = ConnectionWatchdog::default();
    w.on_status(true);
    w.on_heartbeat_at(true, true, 0, 0);
    w.on_heartbeat_at(true, true, 0, 40 * sec);
    assert!(w.check_at(160 * sec).is_empty());
    let cs = w.check_at(160 * sec + 1);
    assert_eq!(cs[0].text, "心跳已丢失 120 秒(正常间隔 40 秒):连接可能假死,请检查 NapCat");
    let cs = w.on_heartbeat_at(false, true, 5000, 170 * sec);
    assert_eq!(cs.len(), 2);
    assert_eq!(cs[0].text, "心跳已恢复,连接正常");
    // a minute at least, however short the interval
    assert!(w.check_at(230 * sec).is_empty());
    assert_eq!(w.check_at(231 * sec).len(), 1);
}
