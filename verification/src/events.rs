//! Events for the user interface, and what is shown of a session.
//!
//! The interface fetches events by their numbers, so that a lost connection to it loses
//! nothing but what was dropped for age.

use vstd::prelude::*;
use vstd::string::*;
use crate::lists;
use crate::napcat::ConnStatus;
use crate::placement::Proposal;
use crate::text;
use crate::trace::TraceEvent;

verus! {

/// How many events are kept.
pub const EVENT_CAP: usize = 2000;

/// What the model is told of the memory. It never changes with the settings, so that a
/// prefix cache keeps hitting.
pub open spec fn memory_guide_of() -> Seq<char> {
    "(你可以管理长期记忆:当你了解到值得长期记住的信息(用户偏好、重要事实、约定)时,在回复末尾用标记 [记忆:添加 内容] 写入;需要删除时用 [记忆:删除 内容片段]。不要写入临时性信息,每次只写最重要的。同一事实发生变化时,必须先用 [记忆:删除] 移除旧条目再 [记忆:添加] 新条目,避免同时存在互相矛盾的记忆。)"@
}

pub fn memory_guide() -> (r: &'static str)
    ensures
        r@ == memory_guide_of(),
{
    "(你可以管理长期记忆:当你了解到值得长期记住的信息(用户偏好、重要事实、约定)时,在回复末尾用标记 [记忆:添加 内容] 写入;需要删除时用 [记忆:删除 内容片段]。不要写入临时性信息,每次只写最重要的。同一事实发生变化时,必须先用 [记忆:删除] 移除旧条目再 [记忆:添加] 新条目,避免同时存在互相矛盾的记忆。)"
}

/// What the model is told of the length of its thoughts; it never changes either.
pub open spec fn thinking_guide_of() -> Seq<char> {
    "(思考过程请保持简短:只需要确定接下来该回复什么即可,不要展开长篇推理。)"@
}

pub fn thinking_guide() -> (r: &'static str)
    ensures
        r@ == thinking_guide_of(),
{
    "(思考过程请保持简短:只需要确定接下来该回复什么即可,不要展开长篇推理。)"
}

#[derive(Debug, Clone)]
pub enum FrontendEvent {
    Log { level: String, msg: String },
    Status { status: ConnStatus },
    MsgIn { key: String, text: String },
    MsgOut { key: String, text: String },
    LlmStats {
        model: String,
        prompt_tokens: u64,
        completion_tokens: u64,
        cache_hit: u64,
        cache_miss: u64,
        reasoning_tokens: u64,
        elapsed_ms: u64,
    },
    SessionChanged { key: String, count: usize, tokens: u64 },
    Notice { desc: String, notice_type: String },
    SessionStatus { key: String, status: String },
    /// Something for the timeline of a session.
    Trace { key: String, entry: TraceEvent },
    /// An alarm about the connection, raised or called off.
    Alarm { text: String, raised: bool },
    /// A change of placement waits for approval.
    PlacementProposal { proposal: Proposal },
    /// Something about a task.
    AgentLog { task_id: String, msg: String },
    /// A task has changed.
    AgentTaskUpdated { task_id: String },
}

/// The events that are kept, each with its number.
pub struct EventBuf {
    next_seq: u64,
    events: Vec<(u64, FrontendEvent)>,
}

/// The events from position `i` on whose numbers are greater than `after`.
pub open spec fn later_than(events: Seq<(u64, FrontendEvent)>, after: u64) -> Seq<(u64, FrontendEvent)>
    decreases events.len(),
{
    if events.len() == 0 {
        Seq::<(u64, FrontendEvent)>::empty()
    } else if events.last().0 > after {
        later_than(events.drop_last(), after).push(events.last())
    } else {
        later_than(events.drop_last(), after)
    }
}

impl EventBuf {
    pub closed spec fn events(&self) -> Seq<(u64, FrontendEvent)> {
        self.events@
    }

    /// The number that the next event gets.
    pub closed spec fn next(&self) -> u64 {
        self.next_seq
    }

    /// The numbers run without a gap up to the next one, and no more are kept than may.
    pub open spec fn wf(&self) -> bool {
        &&& self.next() >= 1
        &&& self.events().len() <= EVENT_CAP
        &&& self.events().len() < self.next()
        &&& forall|i: int|
            0 <= i < self.events().len() ==> (#[trigger] self.events()[i]).0 == self.next()
                - self.events().len() + i
    }

    pub fn new() -> (r: EventBuf)
        ensures
            r.wf(),
            r.next() == 1,
            r.events() == Seq::<(u64, FrontendEvent)>::empty(),
    {
        EventBuf { next_seq: 1, events: Vec::new() }
    }

    /// Whether there is a number left for another event.
    pub fn has_room(&self) -> (r: bool)
        ensures
            r == (self.next() < u64::MAX),
    {
        self.next_seq < u64::MAX
    }

    /// Adds an event; beyond the number kept the oldest goes.
    pub fn push(&mut self, ev: FrontendEvent)
        requires
            old(self).wf(),
            old(self).next() < u64::MAX,
        ensures
            final(self).wf(),
            final(self).next() == old(self).next() + 1,
            final(self).events() == lists::newest(
                old(self).events().push((old(self).next(), ev)),
                EVENT_CAP as int,
            ),
    {
        let seq: u64 = self.next_seq;
        self.next_seq = seq + 1;
        self.events.push((seq, ev));
        lists::keep_newest(&mut self.events, EVENT_CAP);
    }

    /// The events with greater numbers than `after`, and the greatest number so far.
    pub fn after(&self, after: u64) -> (r: (Vec<(u64, &FrontendEvent)>, u64))
        requires
            self.wf(),
        ensures
            r.0@.map_values(|e: (u64, &FrontendEvent)| (e.0, *e.1)) == later_than(
                self.events(),
                after,
            ),
            r.1 == self.next() - 1,
    {
        let mut out: Vec<(u64, &FrontendEvent)> = Vec::new();
        let ghost all = self.events@;
        let mut i: usize = 0;
        assert(out@.map_values(|e: (u64, &FrontendEvent)| (e.0, *e.1)) =~= later_than(
            all.take(0),
            after,
        ));
        while i < self.events.len()
            invariant
                i <= self.events@.len(),
                all == self.events@,
                out@.map_values(|e: (u64, &FrontendEvent)| (e.0, *e.1)) == later_than(
                    all.take(i as int),
                    after,
                ),
            decreases self.events@.len() - i,
        {
            let ghost before = out@;
            proof {
                assert(all.take(i + 1).drop_last() == all.take(i as int));
                assert(all.take(i + 1).last() == all[i as int]);
            }
            if self.events[i].0 > after {
                out.push((self.events[i].0, &self.events[i].1));
                assert(out@.map_values(|e: (u64, &FrontendEvent)| (e.0, *e.1)) =~= before.map_values(
                    |e: (u64, &FrontendEvent)| (e.0, *e.1),
                ).push(all[i as int]));
            }
            i += 1;
        }
        assert(all.take(all.len() as int) == all);
        (out, self.next_seq - 1)
    }
}

impl Default for EventBuf {
    fn default() -> (r: EventBuf)
        ensures
            r.wf(),
            r.next() == 1,
            r.events() == Seq::<(u64, FrontendEvent)>::empty(),
    {
        EventBuf::new()
    }
}

/// A reply as far as it has come, for those who look on.
#[derive(Debug)]
pub struct LiveTurn {
    pub turn: String,
    pub reasoning: String,
    pub content: String,
}

pub struct LiveView {
    pub turn: Seq<char>,
    pub reasoning: Seq<char>,
    pub content: Seq<char>,
}

impl View for LiveTurn {
    type V = LiveView;

    open spec fn view(&self) -> LiveView {
        LiveView { turn: self.turn@, reasoning: self.reasoning@, content: self.content@ }
    }
}

impl Clone for LiveTurn {
    fn clone(&self) -> (r: LiveTurn)
        ensures
            r@ == self@,
    {
        LiveTurn {
            turn: self.turn.clone(),
            reasoning: self.reasoning.clone(),
            content: self.content.clone(),
        }
    }
}

#[derive(Debug, Clone, Copy, PartialEq, Eq, Structural)]
pub enum SessionStatus {
    Idle,
    Replying,
    Thinking,
    Deciding,
    Executing,
    Approval,
}

impl Default for SessionStatus {
    fn default() -> (r: SessionStatus)
        ensures
            r == SessionStatus::Idle,
    {
        SessionStatus::Idle
    }
}

impl SessionStatus {
    pub open spec fn word_of(self) -> Seq<char> {
        match self {
            SessionStatus::Idle => "idle"@,
            SessionStatus::Replying => "replying"@,
            SessionStatus::Thinking => "thinking"@,
            SessionStatus::Deciding => "deciding"@,
            SessionStatus::Executing => "executing"@,
            SessionStatus::Approval => "approval"@,
        }
    }

    pub fn as_str(&self) -> (r: &'static str)
        ensures
            r@ == self.word_of(),
    {
        match self {
            SessionStatus::Idle => "idle",
            SessionStatus::Replying => "replying",
            SessionStatus::Thinking => "thinking",
            SessionStatus::Deciding => "deciding",
            SessionStatus::Executing => "executing",
            SessionStatus::Approval => "approval",
        }
    }

    pub open spec fn label_of(self) -> Seq<char> {
        match self {
            SessionStatus::Idle => "空闲"@,
            SessionStatus::Replying => "回复中"@,
            SessionStatus::Thinking => "思考中"@,
            SessionStatus::Deciding => "决策中"@,
            SessionStatus::Executing => "执行中"@,
            SessionStatus::Approval => "审批中"@,
        }
    }

    pub fn label(&self) -> (r: &'static str)
        ensures
            r@ == self.label_of(),
    {
        match self {
            SessionStatus::Idle => "空闲",
            SessionStatus::Replying => "回复中",
            SessionStatus::Thinking => "思考中",
            SessionStatus::Deciding => "决策中",
            SessionStatus::Executing => "执行中",
            SessionStatus::Approval => "审批中",
        }
    }
}

// ---------- laws ----------

proof fn lemma_later_than(events: Seq<(u64, FrontendEvent)>, after: u64, first: int)
    requires
        first >= 0,
        forall|i: int| 0 <= i < events.len() ==> (#[trigger] events[i]).0 == first + i,
    ensures
        later_than(events, after) == (if after < first {
            events
        } else if after - first + 1 <= events.len() {
            events.skip(after - first + 1)
        } else {
            Seq::<(u64, FrontendEvent)>::empty()
        }),
    decreases events.len(),
{
    let want = if after < first {
        events
    } else if after - first + 1 <= events.len() {
        events.skip(after - first + 1)
    } else {
        Seq::<(u64, FrontendEvent)>::empty()
    };
    if events.len() == 0 {
        assert(want =~= later_than(events, after));
    } else {
        let init = events.drop_last();
        lemma_later_than(init, after, first);
        assert(events.last().0 == first + events.len() - 1);
        assert(want =~= later_than(events, after));
    }
}

/// Whoever fetches the events after the last number seen misses nothing that is still
/// kept and gets nothing twice: what comes is the run of events behind that number, and
/// with nothing new it is empty.
pub proof fn law_polling_is_gapless(buf: EventBuf, after: u64)
    requires
        buf.wf(),
    ensures
        ({
            let first = buf.next() - buf.events().len();
            &&& after >= buf.next() - 1 ==> later_than(buf.events(), after) == Seq::<
                (u64, FrontendEvent),
            >::empty()
            &&& first <= after < buf.next() - 1 ==> later_than(buf.events(), after) == buf.events().skip(
                after - first + 1,
            )
            &&& after < first ==> later_than(buf.events(), after) == buf.events()
        }),
{
    let first = buf.next() - buf.events().len();
    lemma_later_than(buf.events(), after, first);
    if after - first + 1 == buf.events().len() {
        assert(buf.events().skip(after - first + 1) =~= Seq::<(u64, FrontendEvent)>::empty());
    }
}

/// `after` is `before` with one event more.
pub open spec fn is_pushed(before: EventBuf, ev: FrontendEvent, after: EventBuf) -> bool {
    &&& after.next() == before.next() + 1
    &&& after.events() == lists::newest(
        before.events().push((before.next(), ev)),
        EVENT_CAP as int,
    )
}

/// The states of a buffer that was empty at first and then took up events one by one.
pub open spec fn is_run(states: Seq<EventBuf>, evs: Seq<FrontendEvent>) -> bool {
    &&& states.len() == evs.len() + 1
    &&& states[0].next() == 1
    &&& states[0].events() == Seq::<(u64, FrontendEvent)>::empty()
    &&& forall|i: int| 0 <= i < evs.len() ==> #[trigger] is_pushed(states[i], evs[i], states[i + 1])
}

/// The newest of some events, at most as many as are kept, with their numbers counted
/// from one.
pub open spec fn numbered(evs: Seq<FrontendEvent>) -> Seq<(u64, FrontendEvent)> {
    lists::newest(Seq::new(evs.len(), |i: int| ((i + 1) as u64, evs[i])), EVENT_CAP as int)
}

/// Whatever a buffer takes up, the events get the numbers one, two, three and so on,
/// without a gap and none twice; exactly the newest are kept, in their order, and
/// whoever has seen none gets these, with the number of the last. The numbers are
/// bounded by 64 bits.
pub proof fn law_run_is_numbered(states: Seq<EventBuf>, evs: Seq<FrontendEvent>)
    requires
        is_run(states, evs),
        evs.len() < u64::MAX,
    ensures
        states.last().wf(),
        states.last().next() - 1 == evs.len(),
        states.last().events() == numbered(evs),
        later_than(states.last().events(), 0) == numbered(evs),
    decreases evs.len(),
{
    let last = states.last();
    if evs.len() == 0 {
        assert(last.events() =~= numbered(evs));
    } else {
        let n = evs.len() as int - 1;
        let before = states.drop_last();
        let some = evs.drop_last();
        assert forall|i: int| 0 <= i < some.len() implies #[trigger] is_pushed(
            before[i],
            some[i],
            before[i + 1],
        ) by {
            assert(is_pushed(states[i], evs[i], states[i + 1]));
        }
        law_run_is_numbered(before, some);
        assert(is_pushed(states[n], evs[n], states[n + 1]));
        assert(before.last() == states[n]);
        assert(last.events() =~= numbered(evs));
    }
    law_polling_is_gapless(last, 0);
}

/// Every event that is still kept comes exactly where its number is greater, and comes as
/// it was put in.
pub proof fn law_later_events_come(events: Seq<(u64, FrontendEvent)>, after: u64)
    ensures
        forall|i: int|
            0 <= i < events.len() && (#[trigger] events[i]).0 > after ==> later_than(events, after).contains(events[i]),
        forall|k: int|
            0 <= k < later_than(events, after).len() ==> events.contains(#[trigger] later_than(events, after)[k])
                && later_than(events, after)[k].0 > after,
    decreases events.len(),
{
    if events.len() > 0 {
        let front = events.drop_last();
        law_later_events_come(front, after);
        let f = later_than(front, after);
        let t = later_than(events, after);
        assert forall|i: int| 0 <= i < events.len() && (#[trigger] events[i]).0 > after implies t.contains(events[i]) by {
            if i < front.len() {
                assert(front[i] == events[i]);
                let k = choose|k: int| 0 <= k < f.len() && f[k] == events[i];
                assert(t[k] == events[i]);
            } else {
                assert(t[t.len() - 1] == events[i]);
            }
        }
        assert forall|k: int| 0 <= k < t.len() implies events.contains(#[trigger] t[k]) && t[k].0 > after by {
            if k < f.len() {
                assert(t[k] == f[k]);
                let i = choose|i: int| 0 <= i < front.len() && front[i] == f[k];
                assert(events[i] == t[k]);
            } else {
                assert(events[events.len() - 1] == t[k]);
            }
        }
    }
}

/// A new event is kept as the last, under the number that was next.
pub proof fn law_new_event_is_last(before: EventBuf, ev: FrontendEvent, after: EventBuf)
    requires
        is_pushed(before, ev, after),
    ensures
        after.events().len() > 0,
        after.events().last() == (before.next(), ev),
        before.events().len() < 2000 ==> after.events() == before.events().push((before.next(), ev)),
        before.events().len() >= 2000 ==> after.events().len() == 2000,
{
}

/// No two states are told by the same word, nor by the same label.
pub proof fn law_states_are_told_apart(a: SessionStatus, b: SessionStatus)
    requires
        a != b,
    ensures
        a.word_of() != b.word_of(),
        a.label_of() != b.label_of(),
{
    reveal_strlit("idle");
    reveal_strlit("replying");
    reveal_strlit("thinking");
    reveal_strlit("deciding");
    reveal_strlit("executing");
    reveal_strlit("approval");
    reveal_strlit("空闲");
    reveal_strlit("回复中");
    reveal_strlit("思考中");
    reveal_strlit("决策中");
    reveal_strlit("执行中");
    reveal_strlit("审批中");
    assert("idle"@[0] == 'i' && "replying"@[0] == 'r' && "thinking"@[0] == 't' && "deciding"@[0] == 'd'
        && "executing"@[0] == 'e' && "approval"@[0] == 'a');
    assert("空闲"@[0] == '空' && "回复中"@[0] == '回' && "思考中"@[0] == '思' && "决策中"@[0] == '决'
        && "执行中"@[0] == '执' && "审批中"@[0] == '审');
}

} // verus!
