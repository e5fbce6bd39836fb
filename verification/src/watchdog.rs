//! A watch over the connection.
//!
//! It notices two faults that leave the connection itself untouched: the account is
//! offline, or the heartbeats stay away. Where no heartbeats were ever seen, none are
//! missed; a connection that breaks is shown elsewhere and silences the watch.

use vstd::prelude::*;
use vstd::string::*;
use crate::clock::Stopwatch;
use crate::number;

verus! {

/// An alarm raised or called off, in words.
#[derive(Debug, Clone, PartialEq)]
pub struct AlarmChange {
    pub raised: bool,
    pub text: String,
}

pub struct AlarmView {
    pub raised: bool,
    pub text: Seq<char>,
}

impl View for AlarmChange {
    type V = AlarmView;

    open spec fn view(&self) -> AlarmView {
        AlarmView { raised: self.raised, text: self.text@ }
    }
}

pub open spec fn alarm_views(v: Seq<AlarmChange>) -> Seq<AlarmView> {
    v.map_values(|a: AlarmChange| a@)
}

/// What the watch knows. Moments and spans are in nanoseconds.
pub struct WatchView {
    pub connected: bool,
    pub last_hb: Option<i128>,
    pub hb_interval: Option<u128>,
    pub hb_count: u32,
    pub qq_online: Option<bool>,
    pub hb_lost: bool,
    pub qq_offline: bool,
}

pub struct ConnectionWatchdog {
    clock: Stopwatch,
    connected: bool,
    /// When the last heartbeat came.
    last_hb: Option<i128>,
    /// How far heartbeats are apart: as they say themselves, or as measured.
    hb_interval: Option<u128>,
    hb_count: u32,
    /// Whether the last heartbeat said that the account is online.
    qq_online: Option<bool>,
    hb_lost: bool,
    qq_offline: bool,
}

impl View for ConnectionWatchdog {
    type V = WatchView;

    closed spec fn view(&self) -> WatchView {
        WatchView {
            connected: self.connected,
            last_hb: self.last_hb,
            hb_interval: self.hb_interval,
            hb_count: self.hb_count,
            qq_online: self.qq_online,
            hb_lost: self.hb_lost,
            qq_offline: self.qq_offline,
        }
    }
}

/// A watch that has seen nothing yet.
pub open spec fn blank(connected: bool) -> WatchView {
    WatchView {
        connected,
        last_hb: None,
        hb_interval: None,
        hb_count: 0,
        qq_online: None,
        hb_lost: false,
        qq_offline: false,
    }
}

/// The connection came up or broke. A break forgets everything, without a word.
pub open spec fn on_status_of(w: WatchView, connected: bool) -> WatchView {
    if connected == w.connected {
        w
    } else if connected {
        WatchView { connected, ..w }
    } else {
        blank(false)
    }
}

/// The time from one moment to a later one.
pub open spec fn span(from: i128, to: i128) -> int {
    if to < from {
        0
    } else {
        to - from
    }
}

pub open spec fn interval_of(w: WatchView, interval_ms: u64, now: i128) -> Option<u128> {
    if interval_ms > 0 {
        Some((interval_ms * 1_000_000) as u128)
    } else {
        match w.last_hb {
            None => w.hb_interval,
            Some(last) => match w.hb_interval {
                Some(i) => if span(last, now) > i {
                    Some(span(last, now) as u128)
                } else {
                    Some(i)
                },
                None => Some(span(last, now) as u128),
            },
        }
    }
}

pub open spec fn hb_back() -> AlarmView {
    AlarmView { raised: false, text: "心跳已恢复,连接正常"@ }
}

pub open spec fn qq_back() -> AlarmView {
    AlarmView { raised: false, text: "QQ 已重新上线"@ }
}

pub open spec fn qq_gone() -> AlarmView {
    AlarmView {
        raised: true,
        text: "QQ 已离线(心跳状态报告):收不到新消息,请检查 NapCat/QQ 登录态"@,
    }
}

/// A heartbeat: the watch after it, and the alarms that change by it.
pub open spec fn on_heartbeat_of(
    w: WatchView,
    online: bool,
    good: bool,
    interval_ms: u64,
    now: i128,
) -> (WatchView, Seq<AlarmView>) {
    let up = online && good;
    let was_down = w.qq_online == Some(false);
    let after = WatchView {
        connected: w.connected,
        last_hb: Some(now),
        hb_interval: interval_of(w, interval_ms, now),
        hb_count: if w.hb_count < u32::MAX {
            (w.hb_count + 1) as u32
        } else {
            w.hb_count
        },
        qq_online: Some(up),
        hb_lost: false,
        qq_offline: if up && was_down {
            false
        } else if !up && !was_down {
            true
        } else {
            w.qq_offline
        },
    };
    let first = if w.hb_lost {
        seq![hb_back()]
    } else {
        Seq::<AlarmView>::empty()
    };
    let second = if up && was_down {
        seq![qq_back()]
    } else if !up && !was_down {
        seq![qq_gone()]
    } else {
        Seq::<AlarmView>::empty()
    };
    (after, first + second)
}

/// How long heartbeats may stay away: three times their interval, a minute at least.
pub open spec fn patience(interval: u128) -> int {
    let three = if 3 * interval > u128::MAX {
        u128::MAX as int
    } else {
        3 * interval
    };
    if three < 60_000_000_000 {
        60_000_000_000
    } else {
        three
    }
}

pub open spec fn whole_seconds(ns: int) -> int {
    (ns / 1_000_000_000) as u64 as int
}

pub open spec fn hb_gone(away: int, interval: u128) -> AlarmView {
    AlarmView {
        raised: true,
        text: "心跳已丢失 "@ + number::dec(whole_seconds(away)) + " 秒(正常间隔 "@ + number::dec(
            whole_seconds(interval as int),
        ) + " 秒):连接可能假死,请检查 NapCat"@,
    }
}

/// Whether heartbeats are missed for the first time: only once two were seen.
pub open spec fn misses(w: WatchView, now: i128) -> bool {
    &&& w.connected
    &&& w.hb_count >= 2
    &&& !w.hb_lost
    &&& w.last_hb is Some
    &&& w.hb_interval is Some
    &&& span(w.last_hb->0, now) > patience(w.hb_interval->0)
}

/// A look at the clock: the watch after it, and the alarms that change by it.
pub open spec fn check_of(w: WatchView, now: i128) -> (WatchView, Seq<AlarmView>) {
    if misses(w, now) {
        (
            WatchView { hb_lost: true, ..w },
            seq![hb_gone(span(w.last_hb->0, now), w.hb_interval->0)],
        )
    } else {
        (w, Seq::<AlarmView>::empty())
    }
}

fn alarm(raised: bool, text: &str) -> (r: AlarmChange)
    ensures
        r@ == (AlarmView { raised, text: text@ }),
{
    AlarmChange { raised, text: text.to_owned() }
}

fn time_since(from: i128, now: i128) -> (r: u128)
    ensures
        r == span(from, now),
{
    if now < from {
        0
    } else if from >= 0 {
        (now - from) as u128
    } else if now < 0 {
        (now - from) as u128
    } else {
        now as u128 + (-(from + 1)) as u128 + 1
    }
}

impl Default for ConnectionWatchdog {
    fn default() -> (r: ConnectionWatchdog)
        ensures
            r@ == blank(false),
    {
        ConnectionWatchdog {
            clock: Stopwatch::new(),
            connected: false,
            last_hb: None,
            hb_interval: None,
            hb_count: 0,
            qq_online: None,
            hb_lost: false,
            qq_offline: false,
        }
    }
}

impl ConnectionWatchdog {
    /// The connection came up or broke.
    pub fn on_status(&mut self, connected: bool)
        ensures
            final(self)@ == on_status_of(old(self)@, connected),
    {
        if connected == self.connected {
            return;
        }
        self.connected = connected;
        if !connected {
            self.last_hb = None;
            self.hb_interval = None;
            self.hb_count = 0;
            self.qq_online = None;
            self.hb_lost = false;
            self.qq_offline = false;
        }
    }

    /// A heartbeat came just now.
    pub fn on_heartbeat(&mut self, online: bool, good: bool, interval_ms: u64) -> (r: Vec<AlarmChange>)
        ensures
            exists|now: i128|
                (final(self)@, alarm_views(r@)) == #[trigger] on_heartbeat_of(
                    old(self)@,
                    online,
                    good,
                    interval_ms,
                    now,
                ),
    {
        let now: i128 = self.clock.now();
        self.on_heartbeat_at(online, good, interval_ms, now)
    }

    /// A heartbeat came at the given moment.
    pub fn on_heartbeat_at(&mut self, online: bool, good: bool, interval_ms: u64, now: i128) -> (r: Vec<
        AlarmChange,
    >)
        ensures
            (final(self)@, alarm_views(r@)) == on_heartbeat_of(
                old(self)@,
                online,
                good,
                interval_ms,
                now,
            ),
    {
        let mut r: Vec<AlarmChange> = Vec::new();
        if interval_ms > 0 {
            self.hb_interval = Some(interval_ms as u128 * 1_000_000);
        } else if let Some(last) = self.last_hb {
            let measured: u128 = time_since(last, now);
            let longer = match self.hb_interval {
                Some(i) => measured > i,
                None => true,
            };
            if longer {
                self.hb_interval = Some(measured);
            }
        }
        self.last_hb = Some(now);
        if self.hb_count < u32::MAX {
            self.hb_count = self.hb_count + 1;
        }
        if self.hb_lost {
            self.hb_lost = false;
            r.push(alarm(false, "心跳已恢复,连接正常"));
        }
        let up = online && good;
        let was_down = match self.qq_online {
            Some(b) => !b,
            None => false,
        };
        self.qq_online = Some(up);
        if up && was_down {
            self.qq_offline = false;
            r.push(alarm(false, "QQ 已重新上线"));
        } else if !up && !was_down {
            self.qq_offline = true;
            r.push(
                alarm(true, "QQ 已离线(心跳状态报告):收不到新消息,请检查 NapCat/QQ 登录态"),
            );
        }
        proof {
            let want = on_heartbeat_of(old(self)@, online, good, interval_ms, now);
            assert(alarm_views(r@) =~= want.1);
            assert(self@ == want.0);
        }
        r
    }

    /// Looks at the clock.
    pub fn check(&mut self) -> (r: Vec<AlarmChange>)
        ensures
            exists|now: i128|
                (final(self)@, alarm_views(r@)) == #[trigger] check_of(old(self)@, now),
    {
        let now: i128 = self.clock.now();
        self.check_at(now)
    }

    /// Looks whether heartbeats are missed at the given moment.
    pub fn check_at(&mut self, now: i128) -> (r: Vec<AlarmChange>)
        ensures
            (final(self)@, alarm_views(r@)) == check_of(old(self)@, now),
    {
        let mut r: Vec<AlarmChange> = Vec::new();
        assert(alarm_views(r@) =~= Seq::<AlarmView>::empty());
        if self.connected && self.hb_count >= 2 {
            if let (Some(last), Some(interval)) = (self.last_hb, self.hb_interval) {
                let three: u128 = if interval <= u128::MAX / 3 {
                    3 * interval
                } else {
                    u128::MAX
                };
                let limit: u128 = if three < 60_000_000_000 {
                    60_000_000_000
                } else {
                    three
                };
                let away: u128 = time_since(last, now);
                if !self.hb_lost && away > limit {
                    self.hb_lost = true;
                    let mut s = "心跳已丢失 ".to_owned();
                    s.append(number::u64_text((away / 1_000_000_000) as u64).as_str());
                    s.append(" 秒(正常间隔 ");
                    s.append(number::u64_text((interval / 1_000_000_000) as u64).as_str());
                    s.append(" 秒):连接可能假死,请检查 NapCat");
                    r.push(AlarmChange { raised: true, text: s });
                    assert(alarm_views(r@) =~= seq![hb_gone(away as int, interval)]);
                }
            }
        }
        r
    }

    /// Whether an alarm is on.
    pub fn alarming(&self) -> (r: bool)
        ensures
            r == (self@.hb_lost || self@.qq_offline),
    {
        self.hb_lost || self.qq_offline
    }

    /// How many heartbeats were seen on this connection.
    pub fn hb_count(&self) -> (r: u32)
        ensures
            r == self@.hb_count,
    {
        self.hb_count
    }

    /// Sets the last heartbeat, if there was one, back to some seconds ago.
    pub fn backdate_last_hb(&mut self, ago_secs: u64)
        ensures
            old(self)@.last_hb is None ==> final(self)@ == old(self)@,
            old(self)@.last_hb is Some ==> exists|now: i128|
                0 <= now <= u64::MAX && final(self)@ == (WatchView {
                    last_hb: Some((#[trigger] (now - ago_secs * 1_000_000_000)) as i128),
                    ..old(self)@
                }),
    {
        if self.last_hb.is_some() {
            let now: i128 = self.clock.now();
            self.last_hb = Some(now - ago_secs as i128 * 1_000_000_000);
        }
    }
}

// ---------- laws ----------

/// No heartbeat is missed before two were seen: not on a new connection, and not where
/// heartbeats are switched off.
pub proof fn law_no_loss_without_baseline(w: WatchView, now: i128)
    requires
        w.hb_count < 2 || !w.connected,
    ensures
        check_of(w, now) == (w, Seq::<AlarmView>::empty()),
{
}

/// A broken connection is silent, and whatever follows starts anew.
pub proof fn law_break_silences(w: WatchView)
    requires
        w.connected,
    ensures
        on_status_of(w, false) == blank(false),
        on_status_of(on_status_of(w, false), true) == blank(true),
{
}

/// What the alarms stand for: the heartbeats are missed, or the account was last seen
/// offline.
pub open spec fn alarms_ok(w: WatchView) -> bool {
    w.qq_offline == (w.qq_online == Some(false))
}

/// Alarms are told when they change and only then: a heartbeat calls off the missing of
/// heartbeats exactly if they were missed, tells that the account is gone exactly when
/// it was not known to be gone, and that it is back exactly when it was gone. The state
/// of the alarms stays true to what was seen.
pub proof fn law_alarms_on_change_only(
    w: WatchView,
    online: bool,
    good: bool,
    interval_ms: u64,
    now: i128,
)
    requires
        alarms_ok(w),
    ensures
        ({
            let (after, told) = on_heartbeat_of(w, online, good, interval_ms, now);
            &&& alarms_ok(after)
            &&& !after.hb_lost
            &&& told.len() == (if w.hb_lost { 1int } else { 0 }) + (if after.qq_offline != w.qq_offline {
                1int
            } else {
                0
            })
            &&& after.qq_offline == !(online && good)
        }),
{
}

/// Missing heartbeats are told once: a second look right after tells nothing.
pub proof fn law_loss_told_once(w: WatchView, now: i128, later: i128)
    ensures
        check_of(check_of(w, now).0, later).1 == (if misses(w, now) || !misses(w, later) {
            Seq::<AlarmView>::empty()
        } else {
            check_of(w, later).1
        }),
{
}

/// A heartbeat is taken for what it says: the account is up exactly where it is online and
/// well, and one that was not is told to be gone, or back; the beat counts, at its moment,
/// and its interval is the one it names.
pub proof fn law_heartbeat_is_taken_at_its_word(
    w: WatchView,
    online: bool,
    good: bool,
    interval_ms: u64,
    now: i128,
)
    ensures
        ({
            let (after, told) = on_heartbeat_of(w, online, good, interval_ms, now);
            &&& after.qq_online == Some(online && good)
            &&& after.last_hb == Some(now)
            &&& w.hb_count < u32::MAX ==> after.hb_count == w.hb_count + 1
            &&& interval_ms > 0 ==> after.hb_interval == Some((interval_ms * 1_000_000) as u128)
            &&& after.connected == w.connected
            &&& !(online && good) && w.qq_online != Some(false) ==> told.len() > 0 && told.last().raised && told.last()
                == qq_gone()
            &&& online && good && w.qq_online == Some(false) ==> told.len() > 0 && !told.last().raised && told.last()
                == qq_back()
            &&& w.hb_lost ==> told.len() > 0 && told[0] == hb_back() && !told[0].raised
        }),
        hb_back().text != qq_back().text,
{
    reveal_strlit("心跳已恢复,连接正常");
    reveal_strlit("QQ 已重新上线");
    assert(hb_back().text[0] == '心' && qq_back().text[0] == 'Q');
}

/// Without a word on it the interval is the longest that was measured.
pub proof fn law_interval_is_measured(w: WatchView, now: i128, last: i128)
    requires
        w.last_hb == Some(last),
        0 <= last <= now,
    ensures
        ({
            let i = interval_of(w, 0, now);
            &&& i is Some
            &&& i->0 >= now - last
            &&& w.hb_interval matches Some(b) ==> i->0 >= b && (i->0 == b || i->0 == now - last)
            &&& w.hb_interval is None ==> i->0 == now - last
        }),
{
}

/// Heartbeats are missed exactly where they stay away longer than three of their intervals
/// and a minute, on a connection that has shown two of them; and that is told, with how
/// long they have stayed away.
pub proof fn law_loss_is_told(w: WatchView, now: i128, last: i128, interval: u128)
    requires
        w.connected,
        w.hb_count >= 2,
        !w.hb_lost,
        w.last_hb == Some(last),
        w.hb_interval == Some(interval),
        0 <= last <= now,
        3 * interval <= u128::MAX,
    ensures
        ({
            let away = now - last;
            let (after, told) = check_of(w, now);
            if away > 3 * interval && away > 60 * 1_000_000_000 {
                &&& after.hb_lost
                &&& told.len() == 1
                &&& told[0].raised
                &&& away / 1_000_000_000 <= u64::MAX ==> crate::text::begins(
                    told[0].text,
                    "心跳已丢失 "@ + number::dec(away / 1_000_000_000) + " 秒"@,
                )
            } else {
                after == w && told.len() == 0
            }
        }),
{
    reveal_strlit(" 秒");
    reveal_strlit(" 秒(正常间隔 ");
    let away = now - last;
    let (after, told) = check_of(w, now);
    if away > 3 * interval && away > 60 * 1_000_000_000 {
        if away / 1_000_000_000 <= u64::MAX {
            let head = "心跳已丢失 "@ + number::dec(away / 1_000_000_000) + " 秒"@;
            assert(told[0].text.take(head.len() as int) =~= head);
        }
    }
}

/// A connection that comes up, or stays as it is, forgets nothing.
pub proof fn law_connection_is_followed(w: WatchView, connected: bool)
    ensures
        on_status_of(w, connected).connected == connected,
        connected == w.connected ==> on_status_of(w, connected) == w,
        connected ==> on_status_of(w, connected).last_hb == w.last_hb && on_status_of(w, connected).hb_count
            == w.hb_count,
        !blank(connected).hb_lost && !blank(connected).qq_offline && blank(connected).hb_count == 0 && blank(
            connected,
        ).last_hb is None && blank(connected).qq_online is None,
{
}

/// The alarm about lost heartbeats tells how long they have stayed away and how long they
/// usually take, both in whole seconds.
pub proof fn law_alarm_tells_both_spans(away: int, interval: u128)
    requires
        0 <= away,
    ensures
        hb_gone(away, interval).raised,
        away / 1_000_000_000 <= u64::MAX && interval / 1_000_000_000 <= u64::MAX ==> crate::text::begins(
            hb_gone(away, interval).text,
            "心跳已丢失 "@ + number::dec(away / 1_000_000_000) + " 秒(正常间隔 "@ + number::dec(
                (interval / 1_000_000_000) as int,
            ) + " 秒)"@,
        ),
{
    reveal_strlit(" 秒)");
    reveal_strlit(" 秒):连接可能假死,请检查 NapCat");
    let t = hb_gone(away, interval).text;
    if away / 1_000_000_000 <= u64::MAX && interval / 1_000_000_000 <= u64::MAX {
        let h = "心跳已丢失 "@ + number::dec(away / 1_000_000_000) + " 秒(正常间隔 "@ + number::dec(
            (interval / 1_000_000_000) as int,
        ) + " 秒)"@;
        assert(t.take(h.len() as int) =~= h);
    }
}

} // verus!
