//! What is going on in the sessions right now.
//!
//! For each session there is one record: its status, its pause, the reply under way, the
//! messages that wait, how busy it is and what was said in it without the bot. A session
//! without a record is one in which nothing goes on.

use vstd::prelude::*;
use vstd::string::*;
use crate::clock;
use crate::clock::Stopwatch;
use crate::events::{LiveTurn, LiveView, SessionStatus};
use crate::lists;
use crate::napcat::{ParsedMsg, ParsedMsgView};
use crate::text;

verus! {

/// How many messages may wait in a session.
pub const PENDING_CAP: usize = 8;

/// How long a line is remembered at most, in seconds.
pub const TRAIL_KEEP_SECS: u64 = 86400;

/// A line of a group: when it was said, in nanoseconds since 1970, by whom, and what.
pub type TrailLine = (u128, i64, String);

/// A message that waits, with the id of its turn.
pub type PendingMsg = (ParsedMsg, String);

pub struct SessionState {
    pub status: SessionStatus,
    /// Paused by the user.
    pub paused: bool,
    pub live: Option<LiveTurn>,
    /// A reply is under way and can be stopped.
    pub abort: bool,
    pub pending: Vec<PendingMsg>,
    /// Messages so far.
    pub msg_count: u64,
    /// Their number at the last interjection.
    pub interject_at: Option<u64>,
    /// When the recent messages came.
    pub activity: Vec<i128>,
    pub trail: Vec<TrailLine>,
}

pub struct StateView {
    pub status: SessionStatus,
    pub paused: bool,
    pub live: Option<LiveView>,
    pub abort: bool,
    pub pending: Seq<(ParsedMsgView, Seq<char>)>,
    pub msg_count: u64,
    pub interject_at: Option<u64>,
    pub activity: Seq<i128>,
    pub trail: Seq<(u128, i64, Seq<char>)>,
}

pub open spec fn pending_views(v: Seq<PendingMsg>) -> Seq<(ParsedMsgView, Seq<char>)> {
    v.map_values(|p: PendingMsg| (p.0@, p.1@))
}

pub open spec fn trail_views(v: Seq<TrailLine>) -> Seq<(u128, i64, Seq<char>)> {
    v.map_values(|l: TrailLine| (l.0, l.1, l.2@))
}

impl View for SessionState {
    type V = StateView;

    open spec fn view(&self) -> StateView {
        StateView {
            status: self.status,
            paused: self.paused,
            live: match self.live {
                Some(l) => Some(l@),
                None => None,
            },
            abort: self.abort,
            pending: pending_views(self.pending@),
            msg_count: self.msg_count,
            interject_at: self.interject_at,
            activity: self.activity@,
            trail: trail_views(self.trail@),
        }
    }
}

/// A session in which nothing goes on.
pub open spec fn quiet() -> StateView {
    StateView {
        status: SessionStatus::Idle,
        paused: false,
        live: None,
        abort: false,
        pending: Seq::<(ParsedMsgView, Seq<char>)>::empty(),
        msg_count: 0,
        interject_at: None,
        activity: Seq::<i128>::empty(),
        trail: Seq::<(u128, i64, Seq<char>)>::empty(),
    }
}

impl Default for SessionState {
    fn default() -> (r: SessionState)
        ensures
            r@ == quiet(),
    {
        let r = SessionState {
            status: SessionStatus::Idle,
            paused: false,
            live: None,
            abort: false,
            pending: Vec::new(),
            msg_count: 0,
            interject_at: None,
            activity: Vec::new(),
            trail: Vec::new(),
        };
        assert(r@.pending =~= quiet().pending);
        assert(r@.trail =~= quiet().trail);
        r
    }
}

// ---------- what happens in a session ----------

/// A piece of a reply joined to what has come so far.
pub open spec fn live_joined(s: StateView, turn: Seq<char>, thinking: bool, delta: Seq<char>) -> StateView {
    let l = match s.live {
        Some(l) => l,
        None => LiveView { turn, reasoning: Seq::<char>::empty(), content: Seq::<char>::empty() },
    };
    StateView {
        live: Some(
            if thinking {
                LiveView { reasoning: l.reasoning + delta, ..l }
            } else {
                LiveView { content: l.content + delta, ..l }
            },
        ),
        ..s
    }
}

/// A message queued; where too many wait the oldest gives way.
pub open spec fn queued(s: StateView, item: (ParsedMsgView, Seq<char>)) -> (
    StateView,
    Option<(ParsedMsgView, Seq<char>)>,
) {
    if s.pending.len() >= PENDING_CAP {
        (
            StateView { pending: s.pending.skip(1).push(item), ..s },
            Some(s.pending[0]),
        )
    } else {
        (StateView { pending: s.pending.push(item), ..s }, None)
    }
}

/// The moments without the leading ones before `cutoff`.
pub open spec fn recent(activity: Seq<i128>, cutoff: int) -> Seq<i128>
    decreases activity.len(),
{
    if activity.len() > 0 && activity[0] < cutoff {
        recent(activity.skip(1), cutoff)
    } else {
        activity
    }
}

/// A message counted at a moment, the last `window_secs` seconds being recent.
pub open spec fn counted(s: StateView, window_secs: u64, now: i128) -> StateView {
    let window = if window_secs < 1 {
        1
    } else {
        window_secs as int
    };
    StateView {
        activity: recent(s.activity, now - window * 1_000_000_000).push(now),
        msg_count: if s.msg_count < u64::MAX {
            (s.msg_count + 1) as u64
        } else {
            s.msg_count
        },
        ..s
    }
}

/// A line said within the last so many seconds.
pub open spec fn is_fresh(line: (u128, i64, Seq<char>), window_secs: u64, now: u128) -> bool {
    line.0 <= now && (now - line.0) / 1_000_000_000 < window_secs
}

pub open spec fn fresh_lines(trail: Seq<(u128, i64, Seq<char>)>, window_secs: u64, now: u128) -> Seq<
    (u128, i64, Seq<char>),
> {
    trail.filter(|l: (u128, i64, Seq<char>)| is_fresh(l, window_secs, now))
}

/// A line noted: older ones go by age, and by number unless `max_entries` is zero.
pub open spec fn noted(
    s: StateView,
    words: Seq<char>,
    sender: i64,
    window_secs: u64,
    max_entries: usize,
    now: u128,
) -> StateView {
    let t = text::trim_of(words);
    if t.len() == 0 {
        s
    } else {
        let lines = fresh_lines(s.trail, window_secs, now).push((now, sender, t));
        StateView {
            trail: if max_entries > 0 {
                lists::newest(lines, max_entries as int)
            } else {
                lines
            },
            ..s
        }
    }
}

/// A session tidied up. What belongs to a turn goes only where none is under way; a
/// status that is not idle is set to that instead.
pub open spec fn tidied(s: StateView, now: u128) -> StateView {
    let t = StateView { trail: fresh_lines(s.trail, TRAIL_KEEP_SECS, now), ..s };
    if s.status != SessionStatus::Idle {
        StateView { status: SessionStatus::Idle, ..t }
    } else {
        StateView {
            live: None,
            abort: false,
            pending: Seq::<(ParsedMsgView, Seq<char>)>::empty(),
            ..t
        }
    }
}

/// Something about the session is worth keeping.
pub open spec fn worth_keeping(s: StateView) -> bool {
    ||| s.activity.len() > 0
    ||| s.msg_count > 0
    ||| s.trail.len() > 0
    ||| s.paused
    ||| s.status != SessionStatus::Idle
    ||| s.live is Some
    ||| s.abort
    ||| s.pending.len() > 0
}

/// A session after the clean-up: tidied, and forgotten where nothing is worth keeping.
pub open spec fn cleaned(s: StateView, now: u128) -> StateView {
    let t = tidied(s, now);
    if worth_keeping(t) {
        t
    } else {
        quiet()
    }
}

fn age_below(then: u128, now: u128, window_secs: u64) -> (r: bool)
    ensures
        r == (then <= now && (now - then) / 1_000_000_000 < window_secs),
{
    then <= now && (now - then) / 1_000_000_000 < window_secs as u128
}

impl SessionState {
    fn live_append(&mut self, turn: &str, thinking: bool, delta: &str)
        ensures
            final(self)@ == live_joined(old(self)@, turn@, thinking, delta@),
    {
        let mut l = match &self.live {
            Some(l) => l.clone(),
            None => {
                let l = LiveTurn {
                    turn: turn.to_owned(),
                    reasoning: String::new(),
                    content: String::new(),
                };
                assert(l@.reasoning =~= Seq::<char>::empty());
                assert(l@.content =~= Seq::<char>::empty());
                l
            },
        };
        if thinking {
            l.reasoning.append(delta);
        } else {
            l.content.append(delta);
        }
        self.live = Some(l);
    }

    fn queue(&mut self, item: PendingMsg) -> (r: Option<PendingMsg>)
        ensures
            ({
                let (after, gone) = queued(old(self)@, (item.0@, item.1@));
                final(self)@ == after && match r {
                    Some(p) => gone == Some((p.0@, p.1@)),
                    None => gone is None,
                }
            }),
    {
        let ghost before = self.pending@;
        let r = if self.pending.len() >= PENDING_CAP {
            Some(self.pending.remove(0))
        } else {
            None
        };
        self.pending.push(item);
        proof {
            let want = queued(old(self)@, (item.0@, item.1@)).0;
            assert(self@.pending =~= want.pending);
        }
        r
    }

    fn count(&mut self, window_secs: u64, now: i128)
        requires
            -0x4000_0000_0000_0000_0000_0000_0000_0000 <= now,
        ensures
            final(self)@ == counted(old(self)@, window_secs, now),
    {
        let window: u64 = if window_secs < 1 {
            1
        } else {
            window_secs
        };
        let cutoff: i128 = now - window as i128 * 1_000_000_000;
        let ghost start = self.activity@;
        while self.activity.len() > 0 && self.activity[0] < cutoff
            invariant
                recent(self.activity@, cutoff as int) == recent(start, cutoff as int),
                self@ == (StateView { activity: self.activity@, ..old(self)@ }),
            decreases self.activity@.len(),
        {
            assert(self.activity@.remove(0) =~= self.activity@.skip(1));
            self.activity.remove(0);
        }
        self.activity.push(now);
        if self.msg_count < u64::MAX {
            self.msg_count = self.msg_count + 1;
        }
    }

    fn drop_stale(&mut self, window_secs: u64, now: u128)
        ensures
            final(self)@ == (StateView {
                trail: fresh_lines(old(self)@.trail, window_secs, now),
                ..old(self)@
            }),
    {
        let ghost all = trail_views(self.trail@);
        let ghost keep = |l: (u128, i64, Seq<char>)| is_fresh(l, window_secs, now);
        let mut i: usize = 0;
        let ghost mut seen: int = 0;
        proof {
            reveal_with_fuel(Seq::filter, 1);
            assert(all.take(0).filter(keep) =~= Seq::<(u128, i64, Seq<char>)>::empty());
            assert(all.take(0).filter(keep) + all.skip(0) =~= all);
        }
        while i < self.trail.len()
            invariant
                0 <= seen <= all.len(),
                i == all.take(seen).filter(keep).len(),
                trail_views(self.trail@) == all.take(seen).filter(keep) + all.skip(seen),
                keep == (|l: (u128, i64, Seq<char>)| is_fresh(l, window_secs, now)),
                self@ == (StateView { trail: self@.trail, ..old(self)@ }),
            decreases all.len() - seen,
        {
            let ghost kept = all.take(seen).filter(keep);
            let ghost before = self.trail@;
            proof {
                reveal_with_fuel(Seq::filter, 1);
                assert(trail_views(self.trail@).len() == self.trail@.len());
                assert(seen < all.len());
                assert(all.take(seen + 1).drop_last() == all.take(seen));
                assert(all.take(seen + 1).last() == all[seen]);
                assert(trail_views(self.trail@)[i as int] == all[seen]);
            }
            if !age_below(self.trail[i].0, now, window_secs) {
                proof {
                    assert((kept + all.skip(seen)).remove(i as int) =~= kept + all.skip(seen + 1));
                    assert(trail_views(before.remove(i as int)) =~= trail_views(before).remove(
                        i as int,
                    ));
                    seen = seen + 1;
                }
                self.trail.remove(i);
            } else {
                proof {
                    assert(kept + all.skip(seen) =~= kept.push(all[seen]) + all.skip(seen + 1));
                    seen = seen + 1;
                }
                i += 1;
            }
        }
        proof {
            assert(trail_views(self.trail@).len() == self.trail@.len());
            assert(all.skip(seen).len() == 0);
            assert(all.take(seen) == all);
            assert(trail_views(self.trail@) =~= all.filter(keep));
        }
    }

    fn note(&mut self, words: &str, sender: i64, window_secs: u64, max_entries: usize, now: u128)
        requires
            text::trim_of(words@).len() > 0,
        ensures
            final(self)@ == noted(old(self)@, words@, sender, window_secs, max_entries, now),
    {
        let t = text::trim(words);
        self.drop_stale(window_secs, now);
        let ghost before = self.trail@;
        let line: TrailLine = (now, sender, t.to_owned());
        self.trail.push(line);
        assert(trail_views(self.trail@) =~= trail_views(before).push((now, sender, t@)));
        if max_entries > 0 {
            let ghost full = self.trail@;
            lists::keep_newest(&mut self.trail, max_entries);
            assert(trail_views(self.trail@) =~= lists::newest(trail_views(full), max_entries as int));
        }
    }

    fn tidy(&mut self, now: u128) -> (r: bool)
        ensures
            final(self)@ == tidied(old(self)@, now),
            r == worth_keeping(tidied(old(self)@, now)),
    {
        self.drop_stale(TRAIL_KEEP_SECS, now);
        if self.status != SessionStatus::Idle {
            self.status = SessionStatus::Idle;
        } else {
            self.live = None;
            self.abort = false;
            self.pending = Vec::new();
            assert(self@.pending =~= Seq::<(ParsedMsgView, Seq<char>)>::empty());
        }
        assert(self@.pending.len() == self.pending@.len());
        assert(self@.trail.len() == self.trail@.len());
        self.activity.len() > 0 || self.msg_count > 0 || self.trail.len() > 0 || self.paused
            || self.status != SessionStatus::Idle || self.live.is_some() || self.abort
            || self.pending.len() > 0
    }
}

// ---------- all sessions ----------

pub struct Entry {
    pub key: String,
    pub state: SessionState,
}

/// No key occurs twice.
pub open spec fn keys_differ(entries: Seq<Entry>) -> bool {
    forall|i: int, j: int|
        0 <= i < j < entries.len() ==> (#[trigger] entries[i]).key@ != (#[trigger] entries[j]).key@
}

pub open spec fn is_at(entries: Seq<Entry>, key: Seq<char>, i: int) -> bool {
    0 <= i < entries.len() && entries[i].key@ == key
}

/// The record of a session; a session without one is quiet.
pub open spec fn lookup(entries: Seq<Entry>, key: Seq<char>) -> StateView {
    if exists|i: int| is_at(entries, key, i) {
        entries[choose|i: int| is_at(entries, key, i)].state@
    } else {
        quiet()
    }
}

proof fn lemma_lookup(entries: Seq<Entry>, i: int)
    requires
        keys_differ(entries),
        0 <= i < entries.len(),
    ensures
        lookup(entries, entries[i].key@) == entries[i].state@,
{
    let key = entries[i].key@;
    assert(is_at(entries, key, i));
    let j = choose|j: int| is_at(entries, key, j);
    if i < j {
        assert(entries[i].key@ != entries[j].key@);
    } else if j < i {
        assert(entries[j].key@ != entries[i].key@);
    }
}

/// One record was changed, the others not.
proof fn lemma_update(before: Seq<Entry>, after: Seq<Entry>, i: int)
    requires
        keys_differ(before),
        0 <= i < before.len(),
        after.len() == before.len(),
        after[i].key@ == before[i].key@,
        forall|j: int| 0 <= j < before.len() && j != i ==> #[trigger] after[j] == before[j],
    ensures
        keys_differ(after),
        forall|k: Seq<char>|
            #[trigger] lookup(after, k) == if k == before[i].key@ {
                after[i].state@
            } else {
                lookup(before, k)
            },
{
    assert forall|a: int, b: int| 0 <= a < b < after.len() implies (#[trigger] after[a]).key@ != (
    #[trigger] after[b]).key@ by {
        assert(after[a].key@ == before[a].key@);
        assert(after[b].key@ == before[b].key@);
    }
    assert forall|k: Seq<char>| #[trigger]
        lookup(after, k) == if k == before[i].key@ {
            after[i].state@
        } else {
            lookup(before, k)
        } by {
        if exists|j: int| is_at(before, k, j) {
            let j = choose|j: int| is_at(before, k, j);
            assert(is_at(after, k, j));
            lemma_lookup(after, j);
            lemma_lookup(before, j);
        } else {
            assert forall|j: int| !is_at(after, k, j) by {
                if is_at(after, k, j) {
                    assert(is_at(before, k, j));
                }
            }
            if k == before[i].key@ {
                assert(is_at(before, k, i));
            }
        }
    }
}

proof fn lemma_push(before: Seq<Entry>, e: Entry)
    requires
        keys_differ(before),
        forall|j: int| !is_at(before, e.key@, j),
    ensures
        keys_differ(before.push(e)),
        forall|k: Seq<char>|
            #[trigger] lookup(before.push(e), k) == if k == e.key@ {
                e.state@
            } else {
                lookup(before, k)
            },
{
    let after = before.push(e);
    assert forall|a: int, b: int| 0 <= a < b < after.len() implies (#[trigger] after[a]).key@ != (
    #[trigger] after[b]).key@ by {
        if b == before.len() {
            assert(!is_at(before, e.key@, a));
        }
    }
    assert forall|k: Seq<char>| #[trigger]
        lookup(after, k) == if k == e.key@ {
            e.state@
        } else {
            lookup(before, k)
        } by {
        if k == e.key@ {
            lemma_lookup(after, before.len() as int);
        } else if exists|j: int| is_at(before, k, j) {
            let j = choose|j: int| is_at(before, k, j);
            assert(is_at(after, k, j));
            lemma_lookup(after, j);
            lemma_lookup(before, j);
        } else {
            assert forall|j: int| !is_at(after, k, j) by {
                assert(!is_at(before, k, j));
            }
        }
    }
}

proof fn lemma_remove(before: Seq<Entry>, i: int)
    requires
        keys_differ(before),
        0 <= i < before.len(),
    ensures
        keys_differ(before.remove(i)),
        forall|k: Seq<char>|
            #[trigger] lookup(before.remove(i), k) == if k == before[i].key@ {
                quiet()
            } else {
                lookup(before, k)
            },
{
    let after = before.remove(i);
    assert forall|a: int, b: int| 0 <= a < b < after.len() implies (#[trigger] after[a]).key@ != (
    #[trigger] after[b]).key@ by {
        let x = if a < i {
            a
        } else {
            a + 1
        };
        let y = if b < i {
            b
        } else {
            b + 1
        };
        assert(before[x].key@ != before[y].key@);
    }
    assert forall|k: Seq<char>| #[trigger]
        lookup(after, k) == if k == before[i].key@ {
            quiet()
        } else {
            lookup(before, k)
        } by {
        if exists|j: int| is_at(after, k, j) {
            let j = choose|j: int| is_at(after, k, j);
            let x = if j < i {
                j
            } else {
                j + 1
            };
            assert(is_at(before, k, x));
            lemma_lookup(before, x);
            if k == before[i].key@ {
                if x < i {
                    assert(before[x].key@ != before[i].key@);
                } else {
                    assert(before[i].key@ != before[x].key@);
                }
            }
        } else if exists|j: int| is_at(before, k, j) {
            let j = choose|j: int| is_at(before, k, j);
            if j < i {
                assert(is_at(after, k, j));
            } else if j > i {
                assert(is_at(after, k, j - 1));
            }
        }
    }
}

pub struct SessionRegistry {
    entries: Vec<Entry>,
    clock: Stopwatch,
}

/// One session went over to a new state, the others are as they were.
pub open spec fn moved(before: SessionRegistry, after: SessionRegistry, key: Seq<char>, new: StateView) -> bool {
    forall|k: Seq<char>|
        #[trigger] after.state(k) == if k == key {
            new
        } else {
            before.state(k)
        }
}

proof fn lemma_moved(start: SessionRegistry, mid: SessionRegistry, after: SessionRegistry, i: int)
    requires
        mid.wf(),
        forall|k: Seq<char>| #[trigger] mid.state(k) == start.state(k),
        0 <= i < mid.entries@.len(),
        after.entries@.len() == mid.entries@.len(),
        after.entries@[i].key@ == mid.entries@[i].key@,
        forall|j: int|
            0 <= j < mid.entries@.len() && j != i ==> #[trigger] after.entries@[j] == mid.entries@[j],
    ensures
        after.wf(),
        moved(start, after, mid.entries@[i].key@, after.entries@[i].state@),
{
    lemma_update(mid.entries@, after.entries@, i);
    assert forall|k: Seq<char>| #[trigger]
        after.state(k) == if k == mid.entries@[i].key@ {
            after.entries@[i].state@
        } else {
            start.state(k)
        } by {
        assert(mid.state(k) == start.state(k));
    }
}

impl SessionRegistry {
    /// What goes on in a session.
    pub closed spec fn state(&self, key: Seq<char>) -> StateView {
        lookup(self.entries@, key)
    }

    pub closed spec fn wf(&self) -> bool {
        keys_differ(self.entries@)
    }

    pub fn new() -> (r: SessionRegistry)
        ensures
            r.wf(),
            forall|k: Seq<char>| #[trigger] r.state(k) == quiet(),
    {
        let r = SessionRegistry { entries: Vec::new(), clock: Stopwatch::new() };
        assert forall|k: Seq<char>| #[trigger] r.state(k) == quiet() by {
            assert forall|j: int| !is_at(r.entries@, k, j) by {}
        }
        r
    }

    fn find(&self, key: &str) -> (r: Option<usize>)
        ensures
            match r {
                Some(i) => is_at(self.entries@, key@, i as int),
                None => forall|j: int| !is_at(self.entries@, key@, j),
            },
    {
        let mut i: usize = 0;
        while i < self.entries.len()
            invariant
                i <= self.entries@.len(),
                forall|j: int| 0 <= j < i ==> !is_at(self.entries@, key@, j),
            decreases self.entries@.len() - i,
        {
            if text::same(self.entries[i].key.as_str(), key) {
                return Some(i);
            }
            i += 1;
        }
        None
    }

    /// The place of the record of a session, which is made if there is none.
    fn slot(&mut self, key: &str) -> (r: usize)
        requires
            old(self).wf(),
        ensures
            final(self).wf(),
            is_at(final(self).entries@, key@, r as int),
            forall|k: Seq<char>| #[trigger] final(self).state(k) == old(self).state(k),
            final(self).entries@[r as int].state@ == old(self).state(key@),
    {
        match self.find(key) {
            Some(i) => {
                proof {
                    lemma_lookup(self.entries@, i as int);
                }
                i
            },
            None => {
                let e = Entry { key: key.to_owned(), state: SessionState::default() };
                proof {
                    lemma_push(self.entries@, e);
                }
                let n: usize = self.entries.len();
                self.entries.push(e);
                n
            },
        }
    }

    // ---------- status ----------

    /// Sets the status of a session; gives it where it has changed.
    pub fn set_status(&mut self, key: &str, s: SessionStatus) -> (r: Option<SessionStatus>)
        requires
            old(self).wf(),
        ensures
            final(self).wf(),
            moved(*old(self), *final(self), key@, StateView { status: s, ..old(self).state(key@) }),
            r == if old(self).state(key@).status == s {
                None
            } else {
                Some(s)
            },
    {
        let i: usize = self.slot(key);
        let ghost mid = *self;
        if self.entries[i].state.status == s {
            return None;
        }
        self.entries[i].state.status = s;
        proof {
            lemma_moved(*old(self), mid, *self, i as int);
        }
        Some(s)
    }

    pub fn get_status(&self, key: &str) -> (r: SessionStatus)
        requires
            self.wf(),
        ensures
            r == self.state(key@).status,
    {
        match self.find(key) {
            Some(i) => {
                proof {
                    lemma_lookup(self.entries@, i as int);
                }
                self.entries[i].state.status
            },
            None => SessionStatus::Idle,
        }
    }

    // ---------- pause ----------

    /// Pauses a session, or ends its pause; says whether that changed anything.
    pub fn set_session_paused(&mut self, key: &str, paused: bool) -> (r: bool)
        requires
            old(self).wf(),
        ensures
            final(self).wf(),
            moved(*old(self), *final(self), key@, StateView { paused, ..old(self).state(key@) }),
            r == (old(self).state(key@).paused != paused),
    {
        let i: usize = self.slot(key);
        let ghost mid = *self;
        let changed = self.entries[i].state.paused != paused;
        self.entries[i].state.paused = paused;
        proof {
            lemma_moved(*old(self), mid, *self, i as int);
        }
        changed
    }

    pub fn is_session_paused(&self, key: &str) -> (r: bool)
        requires
            self.wf(),
        ensures
            r == self.state(key@).paused,
    {
        match self.find(key) {
            Some(i) => {
                proof {
                    lemma_lookup(self.entries@, i as int);
                }
                self.entries[i].state.paused
            },
            None => false,
        }
    }

    // ---------- the reply under way ----------

    /// Joins a piece to the reply under way: a thought, or text.
    pub fn live_append(&mut self, key: &str, turn: &str, thinking: bool, delta: &str)
        requires
            old(self).wf(),
        ensures
            final(self).wf(),
            moved(
                *old(self),
                *final(self),
                key@,
                live_joined(old(self).state(key@), turn@, thinking, delta@),
            ),
    {
        let i: usize = self.slot(key);
        let ghost mid = *self;
        self.entries[i].state.live_append(turn, thinking, delta);
        proof {
            lemma_moved(*old(self), mid, *self, i as int);
        }
    }

    pub fn live_remove(&mut self, key: &str)
        requires
            old(self).wf(),
        ensures
            final(self).wf(),
            moved(*old(self), *final(self), key@, StateView { live: None, ..old(self).state(key@) }),
    {
        let i: usize = self.slot(key);
        let ghost mid = *self;
        self.entries[i].state.live = None;
        proof {
            lemma_moved(*old(self), mid, *self, i as int);
        }
    }

    pub fn live_get(&self, key: &str) -> (r: Option<LiveTurn>)
        requires
            self.wf(),
        ensures
            match r {
                Some(l) => self.state(key@).live == Some(l@),
                None => self.state(key@).live is None,
            },
    {
        match self.find(key) {
            Some(i) => {
                proof {
                    lemma_lookup(self.entries@, i as int);
                }
                match &self.entries[i].state.live {
                    Some(l) => Some(l.clone()),
                    None => None,
                }
            },
            None => None,
        }
    }

    // ---------- stopping ----------

    /// A reply is under way from now on.
    pub fn abort_insert(&mut self, key: &str)
        requires
            old(self).wf(),
        ensures
            final(self).wf(),
            moved(*old(self), *final(self), key@, StateView { abort: true, ..old(self).state(key@) }),
    {
        let i: usize = self.slot(key);
        let ghost mid = *self;
        self.entries[i].state.abort = true;
        proof {
            lemma_moved(*old(self), mid, *self, i as int);
        }
    }

    /// No reply is under way any more.
    pub fn abort_remove(&mut self, key: &str)
        requires
            old(self).wf(),
        ensures
            final(self).wf(),
            moved(*old(self), *final(self), key@, StateView { abort: false, ..old(self).state(key@) }),
    {
        let i: usize = self.slot(key);
        let ghost mid = *self;
        self.entries[i].state.abort = false;
        proof {
            lemma_moved(*old(self), mid, *self, i as int);
        }
    }

    /// Whether there is a reply to be stopped.
    pub fn abort_send(&self, key: &str) -> (r: bool)
        requires
            self.wf(),
        ensures
            r == self.state(key@).abort,
    {
        match self.find(key) {
            Some(i) => {
                proof {
                    lemma_lookup(self.entries@, i as int);
                }
                self.entries[i].state.abort
            },
            None => false,
        }
    }

    /// The sessions with a reply to be stopped.
    pub fn abort_send_all(&self) -> (r: Vec<String>)
        requires
            self.wf(),
        ensures
            forall|k: Seq<char>| #[trigger] text::views(r@).contains(k) <==> self.state(k).abort,
    {
        let mut r: Vec<String> = Vec::new();
        let mut i: usize = 0;
        while i < self.entries.len()
            invariant
                i <= self.entries@.len(),
                self.wf(),
                forall|k: Seq<char>| #[trigger]
                    text::views(r@).contains(k) <==> exists|j: int|
                        #![trigger self.entries@[j]]
                        0 <= j < i && self.entries@[j].key@ == k && self.entries@[j].state@.abort,
            decreases self.entries@.len() - i,
        {
            let ghost before = r@;
            if self.entries[i].state.abort {
                r.push(self.entries[i].key.clone());
            }
            proof {
                let now = text::views(r@);
                assert forall|k: Seq<char>| #[trigger]
                    now.contains(k) <==> exists|j: int|
                        #![trigger self.entries@[j]]
                        0 <= j < i + 1 && self.entries@[j].key@ == k && self.entries@[j].state@.abort by {
                    if now.contains(k) {
                        let m = choose|m: int| 0 <= m < now.len() && now[m] == k;
                        if m < before.len() {
                            assert(text::views(before)[m] == k);
                            assert(text::views(before).contains(k));
                        } else {
                            assert(self.entries@[i as int].key@ == k);
                        }
                    }
                    if exists|j: int|
                        #![trigger self.entries@[j]]
                        0 <= j < i + 1 && self.entries@[j].key@ == k && self.entries@[j].state@.abort {
                        let j = choose|j: int|
                            #![trigger self.entries@[j]]
                            0 <= j < i + 1 && self.entries@[j].key@ == k && self.entries@[j].state@.abort;
                        if j < i {
                            assert(text::views(before).contains(k));
                            let m = choose|m: int|
                                0 <= m < text::views(before).len() && text::views(before)[m] == k;
                            assert(now[m] == k);
                        } else {
                            assert(now[before.len() as int] == k);
                        }
                    }
                }
            }
            i += 1;
        }
        proof {
            assert forall|k: Seq<char>| #[trigger] text::views(r@).contains(k) <==> self.state(k).abort by {
                if exists|j: int| is_at(self.entries@, k, j) {
                    let j = choose|j: int| is_at(self.entries@, k, j);
                    lemma_lookup(self.entries@, j);
                }
                if text::views(r@).contains(k) {
                    let j = choose|j: int|
                        #![trigger self.entries@[j]]
                        0 <= j < self.entries@.len() && self.entries@[j].key@ == k
                            && self.entries@[j].state@.abort;
                    lemma_lookup(self.entries@, j);
                }
            }
        }
        r
    }

    // ---------- waiting messages ----------

    /// Lets a message wait; gives the one that has to give way for it.
    pub fn pending_push(&mut self, key: &str, item: PendingMsg) -> (r: Option<PendingMsg>)
        requires
            old(self).wf(),
        ensures
            final(self).wf(),
            ({
                let (after, gone) = queued(old(self).state(key@), (item.0@, item.1@));
                &&& moved(*old(self), *final(self), key@, after)
                &&& match r {
                    Some(p) => gone == Some((p.0@, p.1@)),
                    None => gone is None,
                }
            }),
    {
        let i: usize = self.slot(key);
        let ghost mid = *self;
        let r = self.entries[i].state.queue(item);
        proof {
            lemma_moved(*old(self), mid, *self, i as int);
        }
        r
    }

    /// Takes the message that has waited longest.
    pub fn pending_pop(&mut self, key: &str) -> (r: Option<PendingMsg>)
        requires
            old(self).wf(),
        ensures
            final(self).wf(),
            ({
                let s = old(self).state(key@);
                if s.pending.len() == 0 {
                    r is None && moved(*old(self), *final(self), key@, s)
                } else {
                    &&& r matches Some(p) && (p.0@, p.1@) == s.pending[0]
                    &&& moved(
                        *old(self),
                        *final(self),
                        key@,
                        StateView { pending: s.pending.skip(1), ..s },
                    )
                }
            }),
    {
        let i: usize = self.slot(key);
        let ghost mid = *self;
        assert(mid.entries@[i as int].state@.pending.len() == mid.entries@[i as int].state.pending@.len());
        if self.entries[i].state.pending.len() == 0 {
            return None;
        }
        let p = self.entries[i].state.pending.remove(0);
        proof {
            let before = mid.entries@[i as int].state.pending@;
            assert(pending_views(before)[0] == (p.0@, p.1@));
            assert(pending_views(before.remove(0)) =~= pending_views(before).skip(1));
            lemma_moved(*old(self), mid, *self, i as int);
        }
        Some(p)
    }

    /// Puts a message back to where it was taken from.
    pub fn pending_push_front(&mut self, key: &str, item: PendingMsg)
        requires
            old(self).wf(),
        ensures
            final(self).wf(),
            moved(
                *old(self),
                *final(self),
                key@,
                StateView {
                    pending: seq![(item.0@, item.1@)] + old(self).state(key@).pending,
                    ..old(self).state(key@)
                },
            ),
    {
        let i: usize = self.slot(key);
        let ghost mid = *self;
        self.entries[i].state.pending.insert(0, item);
        proof {
            let before = mid.entries@[i as int].state.pending@;
            assert(pending_views(before.insert(0, item)) =~= seq![(item.0@, item.1@)] + pending_views(
                before,
            ));
            lemma_moved(*old(self), mid, *self, i as int);
        }
    }

    /// Forgets the messages that wait, in all sessions.
    pub fn pending_clear(&mut self)
        requires
            old(self).wf(),
        ensures
            final(self).wf(),
            forall|k: Seq<char>| #[trigger]
                final(self).state(k) == (StateView {
                    pending: Seq::<(ParsedMsgView, Seq<char>)>::empty(),
                    ..old(self).state(k)
                }),
    {
        let ghost start = self.entries@;
        let mut i: usize = 0;
        let n: usize = self.entries.len();
        while i < n
            invariant
                i <= n,
                n == start.len(),
                self.entries@.len() == n,
                keys_differ(start),
                keys_differ(self.entries@),
                forall|j: int| 0 <= j < n ==> (#[trigger] self.entries@[j]).key@ == start[j].key@,
                forall|j: int| i <= j < n ==> #[trigger] self.entries@[j] == start[j],
                forall|j: int|
                    0 <= j < i ==> (#[trigger] self.entries@[j]).state@ == (StateView {
                        pending: Seq::<(ParsedMsgView, Seq<char>)>::empty(),
                        ..start[j].state@
                    }),
            decreases n - i,
        {
            let ghost mid = self.entries@;
            self.entries[i].state.pending = Vec::new();
            proof {
                lemma_update(mid, self.entries@, i as int);
                assert(self.entries@[i as int].state@.pending =~= Seq::<
                    (ParsedMsgView, Seq<char>),
                >::empty());
            }
            i += 1;
        }
        proof {
            assert forall|k: Seq<char>| #[trigger]
                self.state(k) == (StateView {
                    pending: Seq::<(ParsedMsgView, Seq<char>)>::empty(),
                    ..lookup(start, k)
                }) by {
                if exists|j: int| is_at(start, k, j) {
                    let j = choose|j: int| is_at(start, k, j);
                    lemma_lookup(start, j);
                    lemma_lookup(self.entries@, j);
                } else {
                    assert forall|j: int| !is_at(self.entries@, k, j) by {
                        if is_at(self.entries@, k, j) {
                            assert(is_at(start, k, j));
                        }
                    }
                }
            }
        }
    }

    // ---------- how busy it is ----------

    /// Counts a message as of now. See [`SessionRegistry::track_activity_at`].
    pub fn track_activity(&mut self, key: &str, window_secs: u64)
        requires
            old(self).wf(),
        ensures
            final(self).wf(),
            exists|now: i128|
                0 <= now && moved(
                    *old(self),
                    *final(self),
                    key@,
                    #[trigger] counted(old(self).state(key@), window_secs, now),
                ),
    {
        let now: i128 = self.clock.now();
        self.track_activity_at(key, window_secs, now);
    }

    /// Counts a message at a moment; those of the last `window_secs` seconds are recent.
    pub fn track_activity_at(&mut self, key: &str, window_secs: u64, now: i128)
        requires
            old(self).wf(),
            0 <= now,
        ensures
            final(self).wf(),
            moved(*old(self), *final(self), key@, counted(old(self).state(key@), window_secs, now)),
    {
        let i: usize = self.slot(key);
        let ghost mid = *self;
        self.entries[i].state.count(window_secs, now);
        proof {
            lemma_moved(*old(self), mid, *self, i as int);
        }
    }

    /// How many messages were recent at the last count.
    pub fn activity_len(&self, key: &str) -> (r: usize)
        requires
            self.wf(),
        ensures
            r == self.state(key@).activity.len(),
    {
        match self.find(key) {
            Some(i) => {
                proof {
                    lemma_lookup(self.entries@, i as int);
                }
                self.entries[i].state.activity.len()
            },
            None => 0,
        }
    }

    /// How many messages came since the last interjection, if there was one.
    pub fn interject_since(&self, key: &str) -> (r: Option<u64>)
        requires
            self.wf(),
        ensures
            r == match self.state(key@).interject_at {
                Some(last) => Some(
                    if self.state(key@).msg_count >= last {
                        (self.state(key@).msg_count - last) as u64
                    } else {
                        0
                    },
                ),
                None => None,
            },
    {
        match self.find(key) {
            Some(i) => {
                proof {
                    lemma_lookup(self.entries@, i as int);
                }
                match self.entries[i].state.interject_at {
                    Some(last) => {
                        let n: u64 = self.entries[i].state.msg_count;
                        if n >= last {
                            Some(n - last)
                        } else {
                            Some(0)
                        }
                    },
                    None => None,
                }
            },
            None => None,
        }
    }

    /// Notes an interjection.
    pub fn mark_interjected(&mut self, key: &str)
        requires
            old(self).wf(),
        ensures
            final(self).wf(),
            moved(
                *old(self),
                *final(self),
                key@,
                StateView {
                    interject_at: Some(old(self).state(key@).msg_count),
                    ..old(self).state(key@)
                },
            ),
    {
        let i: usize = self.slot(key);
        let ghost mid = *self;
        let n: u64 = self.entries[i].state.msg_count;
        self.entries[i].state.interject_at = Some(n);
        proof {
            lemma_moved(*old(self), mid, *self, i as int);
        }
    }

    // ---------- what is said ----------

    /// Notes a line as of now. See [`SessionRegistry::trail_push_at`].
    pub fn trail_push(&mut self, key: &str, words: &str, sender: i64, window_secs: u64, max_entries: usize)
        requires
            old(self).wf(),
        ensures
            final(self).wf(),
            exists|now: u128|
                moved(
                    *old(self),
                    *final(self),
                    key@,
                    #[trigger] noted(
                        old(self).state(key@),
                        words@,
                        sender,
                        window_secs,
                        max_entries,
                        now,
                    ),
                ),
    {
        let now: u128 = match clock::wall_clock() {
            Some(ns) => ns,
            None => 0,
        };
        self.trail_push_at(key, words, sender, window_secs, max_entries, now);
    }

    /// Notes a line at a moment; lines older than the window go, and so do the oldest
    /// beyond `max_entries`, unless that is zero.
    pub fn trail_push_at(
        &mut self,
        key: &str,
        words: &str,
        sender: i64,
        window_secs: u64,
        max_entries: usize,
        now: u128,
    )
        requires
            old(self).wf(),
        ensures
            final(self).wf(),
            moved(
                *old(self),
                *final(self),
                key@,
                noted(old(self).state(key@), words@, sender, window_secs, max_entries, now),
            ),
    {
        if text::trim(words).is_empty() {
            return;
        }
        let i: usize = self.slot(key);
        let ghost mid = *self;
        self.entries[i].state.note(words, sender, window_secs, max_entries, now);
        proof {
            lemma_moved(*old(self), mid, *self, i as int);
        }
    }

    /// The lines of a session.
    pub fn trail_get(&self, key: &str) -> (r: Vec<TrailLine>)
        requires
            self.wf(),
        ensures
            trail_views(r@) == self.state(key@).trail,
    {
        let mut r: Vec<TrailLine> = Vec::new();
        match self.find(key) {
            Some(i) => {
                proof {
                    lemma_lookup(self.entries@, i as int);
                }
                let lines = &self.entries[i].state.trail;
                let ghost all = trail_views(lines@);
                let mut k: usize = 0;
                assert(trail_views(r@) =~= all.take(0));
                while k < lines.len()
                    invariant
                        k <= lines@.len(),
                        all == trail_views(lines@),
                        trail_views(r@) == all.take(k as int),
                    decreases lines@.len() - k,
                {
                    let ghost before = r@;
                    let l = &lines[k];
                    r.push((l.0, l.1, l.2.clone()));
                    proof {
                        assert(trail_views(r@) =~= trail_views(before).push(all[k as int]));
                        assert(all.take(k + 1) =~= all.take(k as int).push(all[k as int]));
                    }
                    k += 1;
                }
                assert(all.take(all.len() as int) == all);
                r
            },
            None => {
                assert(trail_views(r@) =~= quiet().trail);
                r
            },
        }
    }

    /// Forgets the lines of a session.
    pub fn trail_remove(&mut self, key: &str)
        requires
            old(self).wf(),
        ensures
            final(self).wf(),
            moved(
                *old(self),
                *final(self),
                key@,
                StateView {
                    trail: Seq::<(u128, i64, Seq<char>)>::empty(),
                    ..old(self).state(key@)
                },
            ),
    {
        let i: usize = self.slot(key);
        let ghost mid = *self;
        self.entries[i].state.trail = Vec::new();
        proof {
            assert(self.entries@[i as int].state@.trail =~= Seq::<(u128, i64, Seq<char>)>::empty());
            lemma_moved(*old(self), mid, *self, i as int);
        }
    }

    // ---------- clean-up ----------

    /// Tidies up all sessions as of now. See [`SessionRegistry::cleanup_at`].
    pub fn cleanup(&mut self)
        requires
            old(self).wf(),
        ensures
            final(self).wf(),
            exists|now: u128| #[trigger] all_cleaned(*old(self), *final(self), now),
    {
        let now: u128 = match clock::wall_clock() {
            Some(ns) => ns,
            None => 0,
        };
        self.cleanup_at(now);
    }

    /// Tidies up all sessions at a moment.
    pub fn cleanup_at(&mut self, now: u128)
        requires
            old(self).wf(),
        ensures
            final(self).wf(),
            all_cleaned(*old(self), *final(self), now),
    {
        let ghost start = self.entries@;
        let ghost mut seen: int = 0;
        let mut i: usize = 0;
        assert(start.skip(0) == start);
        while i < self.entries.len()
            invariant
                i <= self.entries@.len(),
                0 <= seen <= start.len(),
                keys_differ(start),
                keys_differ(self.entries@),
                self.entries@.skip(i as int) == start.skip(seen),
                forall|k: Seq<char>| #[trigger]
                    lookup(self.entries@, k) == if is_among_first(start, k, seen) {
                        cleaned(lookup(start, k), now)
                    } else {
                        lookup(start, k)
                    },
            decreases start.len() - seen,
        {
            let ghost before = self.entries@;
            proof {
                assert(before.skip(i as int).len() == start.skip(seen).len());
                assert(before.skip(i as int)[0] == before[i as int]);
                assert(start.skip(seen)[0] == start[seen]);
                lemma_lookup(start, seen);
                lemma_first_more(start, seen);
            }
            let ghost key = start[seen].key@;
            let keep = self.entries[i].state.tidy(now);
            let ghost mid = self.entries@;
            proof {
                lemma_update(before, mid, i as int);
                assert(mid[i as int].state@ == tidied(lookup(start, key), now));
                assert(mid.skip(i + 1) =~= before.skip(i + 1));
                assert(before.skip(i + 1) =~= before.skip(i as int).skip(1));
                assert(start.skip(seen + 1) =~= start.skip(seen).skip(1));
            }
            if keep {
                proof {
                    assert forall|k: Seq<char>| #[trigger]
                        lookup(mid, k) == if is_among_first(start, k, seen + 1) {
                            cleaned(lookup(start, k), now)
                        } else {
                            lookup(start, k)
                        } by {
                        assert(lookup(before, k) == if is_among_first(start, k, seen) {
                            cleaned(lookup(start, k), now)
                        } else {
                            lookup(start, k)
                        });
                    }
                    seen = seen + 1;
                }
                i += 1;
            } else {
                self.entries.remove(i);
                proof {
                    lemma_remove(mid, i as int);
                    assert(mid.remove(i as int).skip(i as int) =~= mid.skip(i + 1));
                    assert forall|k: Seq<char>| #[trigger]
                        lookup(self.entries@, k) == if is_among_first(start, k, seen + 1) {
                            cleaned(lookup(start, k), now)
                        } else {
                            lookup(start, k)
                        } by {
                        assert(lookup(before, k) == if is_among_first(start, k, seen) {
                            cleaned(lookup(start, k), now)
                        } else {
                            lookup(start, k)
                        });
                        assert(lookup(mid, k) == if k == key {
                            mid[i as int].state@
                        } else {
                            lookup(before, k)
                        });
                    }
                    seen = seen + 1;
                }
            }
        }
        proof {
            assert(self.entries@.skip(i as int).len() == 0);
            assert(start.skip(seen).len() == start.len() - seen);
            assert forall|k: Seq<char>| #[trigger] self.state(k) == cleaned(lookup(start, k), now) by {
                if !is_among_first(start, k, seen) {
                    assert forall|j: int| !is_at(start, k, j) by {
                        if is_at(start, k, j) {
                            assert(is_among_first(start, k, seen));
                        }
                    }
                    lemma_quiet_stays(now);
                }
            }
        }
    }
}

/// The key is that of one of the first `n` records.
spec fn is_among_first(entries: Seq<Entry>, key: Seq<char>, n: int) -> bool {
    exists|j: int| is_at(entries, key, j) && j < n
}

proof fn lemma_first_more(entries: Seq<Entry>, n: int)
    requires
        keys_differ(entries),
        0 <= n < entries.len(),
    ensures
        !is_among_first(entries, entries[n].key@, n),
        forall|k: Seq<char>| #[trigger]
            is_among_first(entries, k, n + 1) == (is_among_first(entries, k, n) || k
                == entries[n].key@),
{
    if is_among_first(entries, entries[n].key@, n) {
        let j = choose|j: int| is_at(entries, entries[n].key@, j) && j < n;
        assert(entries[j].key@ != entries[n].key@);
    }
    assert forall|k: Seq<char>| #[trigger]
        is_among_first(entries, k, n + 1) == (is_among_first(entries, k, n) || k
            == entries[n].key@) by {
        if is_among_first(entries, k, n + 1) {
            let j = choose|j: int| is_at(entries, k, j) && j < n + 1;
            assert(is_at(entries, k, j));
        }
        if is_among_first(entries, k, n) {
            let j = choose|j: int| is_at(entries, k, j) && j < n;
            assert(is_at(entries, k, j) && j < n + 1);
        }
        if k == entries[n].key@ {
            assert(is_at(entries, k, n));
        }
    }
}

proof fn lemma_quiet_stays(now: u128)
    ensures
        cleaned(quiet(), now) == quiet(),
{
    reveal_with_fuel(Seq::filter, 1);
    assert(fresh_lines(quiet().trail, TRAIL_KEEP_SECS, now) =~= quiet().trail);
}

/// Every session is as the clean-up leaves it.
pub open spec fn all_cleaned(before: SessionRegistry, after: SessionRegistry, now: u128) -> bool {
    forall|k: Seq<char>| #[trigger] after.state(k) == cleaned(before.state(k), now)
}

impl Default for SessionRegistry {
    fn default() -> (r: SessionRegistry)
        ensures
            r.wf(),
            forall|k: Seq<char>| #[trigger] r.state(k) == quiet(),
    {
        SessionRegistry::new()
    }
}

// ---------- laws ----------

/// A pause set by the user survives every clean-up.
pub proof fn law_pause_survives_cleanup(s: StateView, now: u128)
    ensures
        cleaned(s, now).paused == s.paused,
{
}

/// The pause between interjections survives every clean-up of a session in which a
/// message was counted.
pub proof fn law_counts_survive_cleanup(s: StateView, now: u128)
    requires
        s.msg_count > 0,
    ensures
        cleaned(s, now).msg_count == s.msg_count,
        cleaned(s, now).interject_at == s.interject_at,
        cleaned(s, now).activity == s.activity,
{
}

/// A clean-up does not touch a turn that shows itself under way: what waits, what has
/// come of the reply and the means to stop it stay. The clean-up sets the status back to
/// idle, so that this holds of the next one only if the turn has shown itself again.
pub proof fn law_cleanup_spares_running_turns(s: StateView, now: u128)
    requires
        s.status != SessionStatus::Idle,
        s.pending.len() > 0 || s.abort || s.live is Some,
    ensures
        cleaned(s, now).pending == s.pending,
        cleaned(s, now).abort == s.abort,
        cleaned(s, now).live == s.live,
{
}

/// No more messages wait than may, and they are taken up in the order in which they
/// came: the first to wait is the first to be taken or to give way.
pub proof fn law_waiting_is_bounded_and_fair(s: StateView, item: (ParsedMsgView, Seq<char>))
    requires
        s.pending.len() <= PENDING_CAP,
    ensures
        queued(s, item).0.pending.len() <= PENDING_CAP,
        queued(s, item).0.pending.last() == item,
        queued(s, item).1 is None ==> queued(s, item).0.pending.drop_last() == s.pending,
        queued(s, item).1 matches Some(g) ==> g == s.pending[0] && queued(s, item).0.pending.drop_last()
            == s.pending.skip(1),
{
    let after = queued(s, item).0.pending;
    if s.pending.len() >= PENDING_CAP {
        assert(after.drop_last() =~= s.pending.skip(1));
    } else {
        assert(after.drop_last() =~= s.pending);
    }
}

/// A message that was put back is the next to be taken.
pub proof fn law_put_back_comes_next(s: StateView, item: (ParsedMsgView, Seq<char>))
    ensures
        ({
            let p = seq![item] + s.pending;
            p[0] == item && p.skip(1) == s.pending
        }),
{
    assert((seq![item] + s.pending).skip(1) =~= s.pending);
}

/// The lines kept are recent, the new one among them, and no more than may.
pub proof fn law_trail_is_recent(
    s: StateView,
    words: Seq<char>,
    sender: i64,
    window_secs: u64,
    max_entries: usize,
    now: u128,
)
    requires
        text::trim_of(words).len() > 0,
        window_secs > 0,
    ensures
        ({
            let t = noted(s, words, sender, window_secs, max_entries, now).trail;
            &&& t.last() == (now, sender, text::trim_of(words))
            &&& max_entries > 0 ==> t.len() <= max_entries
            &&& forall|i: int| 0 <= i < t.len() ==> is_fresh(#[trigger] t[i], window_secs, now)
        }),
{
    broadcast use vstd::seq_lib::group_filter_ensures;

    let fresh = fresh_lines(s.trail, window_secs, now);
    let lines = fresh.push((now, sender, text::trim_of(words)));
    let t = noted(s, words, sender, window_secs, max_entries, now).trail;
    assert forall|i: int| 0 <= i < lines.len() implies is_fresh(#[trigger] lines[i], window_secs, now) by {
        if i < fresh.len() {
            assert(lines[i] == fresh[i]);
        }
    }
    assert forall|i: int| 0 <= i < t.len() implies is_fresh(#[trigger] t[i], window_secs, now) by {
        assert(t[i] == lines[i + (lines.len() - t.len())]);
    }
}

/// A piece of a reply is joined to what has come of its kind, thought to thought and text
/// to text, and nothing else of the session changes.
pub proof fn law_pieces_are_joined(s: StateView, turn: Seq<char>, thinking: bool, delta: Seq<char>)
    ensures
        ({
            let t = live_joined(s, turn, thinking, delta);
            let l = t.live->0;
            &&& t.live is Some
            &&& s.live is None ==> l.turn == turn && l.reasoning == (if thinking {
                delta
            } else {
                Seq::<char>::empty()
            }) && l.content == (if thinking {
                Seq::<char>::empty()
            } else {
                delta
            })
            &&& s.live matches Some(b) ==> l.turn == b.turn && (thinking ==> l.reasoning == b.reasoning + delta && l.content
                == b.content) && (!thinking ==> l.content == b.content + delta && l.reasoning == b.reasoning)
            &&& t.pending == s.pending && t.status == s.status && t.paused == s.paused && t.abort == s.abort
                && t.msg_count == s.msg_count && t.trail == s.trail
        }),
{
    assert(Seq::<char>::empty() + delta =~= delta);
}

/// Letting a message wait touches nothing but what waits.
pub proof fn law_waiting_touches_nothing_else(s: StateView, item: (ParsedMsgView, Seq<char>))
    ensures
        ({
            let t = queued(s, item).0;
            &&& t.status == s.status && t.paused == s.paused && t.live == s.live && t.abort == s.abort
            &&& t.msg_count == s.msg_count && t.interject_at == s.interject_at && t.activity == s.activity
            &&& t.trail == s.trail
        }),
        s.pending.len() < 8 ==> queued(s, item).1 is None,
        s.pending.len() >= 8 ==> queued(s, item).1 == Some(s.pending[0]),
{
}

/// Only the moments before the cutoff go, from the front: what stays is the end of what
/// was there, and begins with one that is recent.
pub proof fn law_recent_moments_stay(activity: Seq<i128>, cutoff: int)
    ensures
        ({
            let t = recent(activity, cutoff);
            let gone = activity.len() - t.len();
            &&& 0 <= gone <= activity.len()
            &&& t == activity.skip(gone)
            &&& t.len() > 0 ==> t[0] >= cutoff
            &&& forall|i: int| 0 <= i < gone ==> #[trigger] activity[i] < cutoff
        }),
    decreases activity.len(),
{
    if activity.len() > 0 && activity[0] < cutoff {
        let rest = activity.skip(1);
        law_recent_moments_stay(rest, cutoff);
        let t = recent(activity, cutoff);
        let gone = activity.len() - t.len();
        assert(rest.skip(gone - 1) =~= activity.skip(gone));
        assert forall|i: int| 0 <= i < gone implies #[trigger] activity[i] < cutoff by {
            if i > 0 {
                assert(rest[i - 1] == activity[i]);
            }
        }
    } else {
        assert(activity.skip(0) =~= activity);
    }
}

/// A message is counted once and at its moment; nothing but the counts changes.
pub proof fn law_message_is_counted(s: StateView, window_secs: u64, now: i128)
    ensures
        ({
            let t = counted(s, window_secs, now);
            &&& s.msg_count < u64::MAX ==> t.msg_count == s.msg_count + 1
            &&& t.activity.len() >= 1 && t.activity.last() == now
            &&& t.activity.drop_last() == recent(
                s.activity,
                now - (if window_secs == 0 {
                    1
                } else {
                    window_secs as int
                }) * 1_000_000_000,
            )
            &&& t.status == s.status && t.paused == s.paused && t.live == s.live && t.abort == s.abort && t.pending
                == s.pending && t.interject_at == s.interject_at && t.trail == s.trail
        }),
{
    let t = counted(s, window_secs, now);
    let window = if window_secs < 1 {
        1
    } else {
        window_secs as int
    };
    assert(t.activity.drop_last() =~= recent(s.activity, now - window * 1_000_000_000));
}

/// A line is kept exactly as long as it was said within the window: none that still is is
/// lost but for the limit in number, each with who said it and what; white space alone is
/// no line.
pub proof fn law_lines_are_kept(
    s: StateView,
    words: Seq<char>,
    sender: i64,
    window_secs: u64,
    now: u128,
    i: int,
)
    requires
        text::trim_of(words).len() > 0,
        0 <= i < s.trail.len(),
        s.trail[i].0 <= now,
        (now - s.trail[i].0) / 1_000_000_000 < window_secs,
    ensures
        noted(s, words, sender, window_secs, 0, now).trail.contains(s.trail[i]),
        noted(s, words, sender, window_secs, 0, now).trail.last() == (now, sender, text::trim_of(words)),
        forall|blank: Seq<char>|
            text::trim_of(blank).len() == 0 ==> #[trigger] noted(s, blank, sender, window_secs, 0, now) == s,
{
    broadcast use vstd::seq_lib::group_filter_ensures;

    let keep = |l: (u128, i64, Seq<char>)| is_fresh(l, window_secs, now);
    assert(keep(s.trail[i]));
    let f = fresh_lines(s.trail, window_secs, now);
    assert(f.contains(s.trail[i]));
    let k = choose|k: int| 0 <= k < f.len() && f[k] == s.trail[i];
    let t = noted(s, words, sender, window_secs, 0, now).trail;
    assert(t[k] == s.trail[i]);
}

/// A clean-up ends what was left of a turn in a session at rest, forgets lines after a day,
/// and sets a session that shows itself at work back to rest.
pub proof fn law_cleanup_tidies(s: StateView, now: u128, i: int)
    ensures
        cleaned(s, now).status == SessionStatus::Idle,
        s.status == SessionStatus::Idle ==> cleaned(s, now).live is None && !cleaned(s, now).abort && cleaned(
            s,
            now,
        ).pending.len() == 0,
        0 <= i < cleaned(s, now).trail.len() ==> (now - cleaned(s, now).trail[i].0) / 1_000_000_000 < 24 * 60 * 60,
        0 <= i < s.trail.len() && s.trail[i].0 <= now && (now - s.trail[i].0) / 1_000_000_000 < 24 * 60 * 60
            ==> cleaned(s, now).trail.contains(s.trail[i]),
{
    broadcast use vstd::seq_lib::group_filter_ensures;

    let keep = |l: (u128, i64, Seq<char>)| is_fresh(l, TRAIL_KEEP_SECS, now);
    let f = fresh_lines(s.trail, TRAIL_KEEP_SECS, now);
    if 0 <= i < s.trail.len() && is_fresh(s.trail[i], TRAIL_KEEP_SECS, now) {
        assert(keep(s.trail[i]));
        assert(f.contains(s.trail[i]));
        let k = choose|k: int| 0 <= k < f.len() && f[k] == s.trail[i];
        assert(tidied(s, now).trail.len() > 0);
    }
    if 0 <= i < f.len() {
        assert(keep(s.trail.filter(keep)[i]));
    }
}

/// A session of which nothing is known is at rest.
pub proof fn law_quiet_is_at_rest()
    ensures
        quiet().status == SessionStatus::Idle,
        !quiet().paused && !quiet().abort,
        quiet().live is None,
        quiet().pending.len() == 0 && quiet().activity.len() == 0 && quiet().trail.len() == 0,
        quiet().msg_count == 0,
        quiet().interject_at is None,
{
}

/// What a change of one session leaves of the others is all of it.
pub proof fn law_sessions_are_apart(
    before: SessionRegistry,
    after: SessionRegistry,
    key: Seq<char>,
    new: StateView,
    other: Seq<char>,
)
    requires
        moved(before, after, key, new),
        other != key,
    ensures
        after.state(other) == before.state(other),
        after.state(key) == new,
{
}

/// A clean-up of all sessions keeps the pauses and counts of each, and what was said lately.
pub proof fn law_cleanup_is_of_all_sessions(
    before: SessionRegistry,
    after: SessionRegistry,
    now: u128,
    key: Seq<char>,
    i: int,
)
    requires
        all_cleaned(before, after, now),
    ensures
        before.state(key).paused ==> after.state(key).paused,
        ({
            let trail = before.state(key).trail;
            0 <= i < trail.len() && trail[i].0 <= now && (now - trail[i].0) / 1_000_000_000 < 24 * 60 * 60 ==> after.state(
                key,
            ).trail.contains(trail[i])
        }),
        after.state(key).status == SessionStatus::Idle,
{
    assert(after.state(key) == cleaned(before.state(key), now));
    law_cleanup_tidies(before.state(key), now, i);
}

} // verus!
