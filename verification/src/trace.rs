//! The timeline of a session: what came in, what was decided, thought and answered.
//!
//! Messages carry the id of their entry in the history, so that a message can be edited
//! or removed in both places. Only the newest events are kept.

use vstd::prelude::*;
use vstd::string::*;
use crate::clock;
use crate::lists;
use crate::llm::Usage;
use crate::number;
use crate::text;

verus! {

/// How many events are kept.
pub const TRACE_CAP: usize = 600;

/// An id: a reading of the clock in nanoseconds, and a running number.
pub open spec fn id_of(ns: u64, seq: u64) -> Seq<char> {
    number::hex(ns as nat) + number::dec(seq as int)
}

/// The id for a reading of the clock and a running number.
pub fn id_text(ns: u64, seq: u64) -> (r: String)
    ensures
        r@ == id_of(ns, seq),
{
    let mut s = number::hex_text(ns);
    s.append(number::u64_text(seq).as_str());
    s
}

/// A new id for a running number, by the clock.
pub fn new_id(seq: u64) -> (r: String)
    ensures
        exists|ns: u64| r@ == #[trigger] id_of(ns, seq),
{
    let ns: u64 = clock::nanos(clock::wall_clock());
    id_text(ns, seq)
}

/// The present moment in seconds since 1970.
pub fn now_ts() -> (r: i64)
    ensures
        exists|reading: Option<u128>| r == #[trigger] clock::seconds_of(reading),
{
    let reading = clock::wall_clock();
    clock::seconds(reading)
}

#[derive(Debug, Clone)]
pub enum TraceEvent {
    /// A message that came in; `ignored` where it did not get into the history.
    MsgIn { id: Option<String>, turn: String, ts: i64, trigger: String, text: String, ignored: bool },
    /// A command and its reply.
    Cmd { turn: String, ts: i64, text: String, reply: String },
    /// Whether a message was to be answered.
    Decide { turn: String, ts: i64, text: String, verdict: bool, model: String, ms: u64 },
    /// What the model thought.
    Think { turn: String, ts: i64, text: String, tokens: u64 },
    /// The reply that was sent.
    MsgOut { id: Option<String>, turn: String, ts: i64, text: String, model: String, usage: Usage },
    /// An interjection.
    LiteOut { turn: String, ts: i64, text: String, model: String },
    /// Messages folded into the summary.
    Fold { turn: String, ts: i64, folded: usize, summary_tokens: u32 },
    /// A failure, or a stop.
    Error { turn: String, ts: i64, text: String },
}

/// The event is a message with this id.
pub open spec fn carries(e: TraceEvent, id: Seq<char>) -> bool {
    match e {
        TraceEvent::MsgIn { id: t, .. } => text::opt_view(t) == Some(id),
        TraceEvent::MsgOut { id: t, .. } => text::opt_view(t) == Some(id),
        _ => false,
    }
}

/// The same event, with another text where it is a message with this id.
pub open spec fn is_retold(before: TraceEvent, after: TraceEvent, id: Seq<char>, word: Seq<char>) -> bool {
    if !carries(before, id) {
        after == before
    } else {
        match (before, after) {
            (
                TraceEvent::MsgIn { id: i, turn, ts, trigger, ignored, .. },
                TraceEvent::MsgIn { text: t, .. },
            ) => t@ == word && after == (TraceEvent::MsgIn { id: i, turn, ts, trigger, text: t, ignored }),
            (
                TraceEvent::MsgOut { id: i, turn, ts, model, usage, .. },
                TraceEvent::MsgOut { text: t, .. },
            ) => t@ == word && after == (TraceEvent::MsgOut { id: i, turn, ts, text: t, model, usage }),
            _ => false,
        }
    }
}

fn has_id(e: &TraceEvent, id: &str) -> (r: bool)
    ensures
        r == carries(*e, id@),
{
    match e {
        TraceEvent::MsgIn { id: Some(t), .. } => text::same(t.as_str(), id),
        TraceEvent::MsgOut { id: Some(t), .. } => text::same(t.as_str(), id),
        _ => false,
    }
}

fn retell(e: TraceEvent, word: &str) -> (r: TraceEvent)
    ensures
        forall|id: Seq<char>| #[trigger] carries(e, id) ==> is_retold(e, r, id, word@),
{
    match e {
        TraceEvent::MsgIn { id, turn, ts, trigger, text: _, ignored } => TraceEvent::MsgIn {
            id,
            turn,
            ts,
            trigger,
            text: word.to_owned(),
            ignored,
        },
        TraceEvent::MsgOut { id, turn, ts, text: _, model, usage } => TraceEvent::MsgOut {
            id,
            turn,
            ts,
            text: word.to_owned(),
            model,
            usage,
        },
        other => other,
    }
}

/// The timeline of one session, and the file that it is kept in.
pub struct TraceStore {
    pub file: String,
    pub events: Vec<TraceEvent>,
}

impl TraceStore {
    /// A timeline as it was read from its file.
    pub fn new(file: String, events: Vec<TraceEvent>) -> (r: TraceStore)
        ensures
            r.file == file,
            r.events == events,
    {
        TraceStore { file, events }
    }

    /// Adds an event; beyond the number kept the oldest go.
    pub fn push(&mut self, ev: TraceEvent)
        ensures
            final(self).events@ == lists::newest(old(self).events@.push(ev), TRACE_CAP as int),
            final(self).file == old(self).file,
    {
        self.events.push(ev);
        lists::keep_newest(&mut self.events, TRACE_CAP);
    }

    /// Gives the messages with an id another text; says whether there are any.
    pub fn rewrite_text_by_id(&mut self, id: &str, word: &str) -> (r: bool)
        ensures
            final(self).events@.len() == old(self).events@.len(),
            forall|i: int|
                0 <= i < final(self).events@.len() ==> is_retold(
                    old(self).events@[i],
                    #[trigger] final(self).events@[i],
                    id@,
                    word@,
                ),
            r == exists|i: int| 0 <= i < old(self).events@.len() && carries(#[trigger] old(self).events@[i], id@),
            final(self).file == old(self).file,
    {
        let ghost before = self.events@;
        let n: usize = self.events.len();
        let mut changed = false;
        let mut i: usize = 0;
        while i < n
            invariant
                i <= n,
                n == before.len(),
                self.events@.len() == n,
                self.file == old(self).file,
                forall|k: int| i <= k < n ==> #[trigger] self.events@[k] == before[k],
                forall|k: int|
                    0 <= k < i ==> is_retold(before[k], #[trigger] self.events@[k], id@, word@),
                changed == exists|k: int| 0 <= k < i && carries(#[trigger] before[k], id@),
            decreases n - i,
        {
            if has_id(&self.events[i], id) {
                assert(self.events@[i as int] == before[i as int]);
                changed = true;
                let e = self.events.remove(i);
                let e2 = retell(e, word);
                self.events.insert(i, e2);
                assert(carries(before[i as int], id@));
            }
            i += 1;
        }
        changed
    }

    /// Removes the messages with an id; says how many there were.
    pub fn remove_by_id(&mut self, id: &str) -> (r: usize)
        ensures
            final(self).events@ == old(self).events@.filter(|e: TraceEvent| !carries(e, id@)),
            r == old(self).events@.len() - final(self).events@.len(),
            final(self).file == old(self).file,
    {
        let ghost all = self.events@;
        let ghost keep = |e: TraceEvent| !carries(e, id@);
        let before: usize = self.events.len();
        let mut i: usize = 0;
        let ghost mut seen: int = 0;
        proof {
            reveal_with_fuel(Seq::filter, 1);
            assert(all.take(0).filter(keep) =~= Seq::<TraceEvent>::empty());
            assert(all.take(0).filter(keep) + all.skip(0) =~= all);
        }
        while i < self.events.len()
            invariant
                0 <= seen <= all.len(),
                before == all.len(),
                i == all.take(seen).filter(keep).len(),
                i <= seen,
                self.events@ == all.take(seen).filter(keep) + all.skip(seen),
                keep == (|e: TraceEvent| !carries(e, id@)),
                self.file == old(self).file,
            decreases all.len() - seen,
        {
            let ghost kept = all.take(seen).filter(keep);
            proof {
                reveal_with_fuel(Seq::filter, 1);
                assert(seen < all.len());
                assert(all.take(seen + 1).drop_last() == all.take(seen));
                assert(all.take(seen + 1).last() == all[seen]);
                assert(self.events@[i as int] == all[seen]);
            }
            if has_id(&self.events[i], id) {
                proof {
                    assert((kept + all.skip(seen)).remove(i as int) =~= kept + all.skip(seen + 1));
                    seen = seen + 1;
                }
                self.events.remove(i);
            } else {
                proof {
                    assert(kept + all.skip(seen) =~= kept.push(all[seen]) + all.skip(seen + 1));
                    seen = seen + 1;
                }
                i += 1;
            }
        }
        proof {
            assert(all.skip(seen).len() == 0);
            assert(all.take(seen) == all);
            assert(self.events@ =~= all.filter(keep));
        }
        before - self.events.len()
    }
}

// ---------- laws ----------

/// The timeline never holds more than its number of events, whatever it held before.
pub proof fn law_trace_capped(events: Seq<TraceEvent>, ev: TraceEvent)
    ensures
        lists::newest(events.push(ev), TRACE_CAP as int).len() <= TRACE_CAP,
        lists::newest(events.push(ev), TRACE_CAP as int).last() == ev,
{
}

/// What is removed is gone: no event with the id is left, and the others are all there.
pub proof fn law_removed_is_gone(events: Seq<TraceEvent>, id: Seq<char>)
    ensures
        ({
            let left = events.filter(|e: TraceEvent| !carries(e, id));
            &&& forall|i: int| 0 <= i < left.len() ==> !carries(#[trigger] left[i], id)
            &&& forall|i: int|
                0 <= i < events.len() && !carries(#[trigger] events[i], id) ==> left.contains(events[i])
        }),
{
    broadcast use vstd::seq_lib::group_filter_ensures;

    let left = events.filter(|e: TraceEvent| !carries(e, id));
    assert forall|i: int| 0 <= i < events.len() && !carries(#[trigger] events[i], id) implies left.contains(
        events[i],
    ) by {
        assert((|e: TraceEvent| !carries(e, id))(events[i]));
    }
}

/// Two ids made at one reading of the clock differ.
pub proof fn law_ids_differ(ns: u64, a: u64, b: u64)
    requires
        a != b,
    ensures
        id_of(ns, a) != id_of(ns, b),
{
    let head = number::hex(ns as nat);
    if id_of(ns, a) == id_of(ns, b) {
        assert(id_of(ns, a).skip(head.len() as int) =~= number::dec(a as int));
        assert(id_of(ns, b).skip(head.len() as int) =~= number::dec(b as int));
        number::lemma_dec_same(a as nat, b as nat);
    }
}

/// An id is of its reading and its number: the one in hexadecimal, the other in decimal
/// notation behind it.
pub proof fn law_id_is_of_its_number(ns: u64, seq: u64)
    ensures
        text::ends(id_of(ns, seq), number::dec(seq as int)),
        text::begins(id_of(ns, seq), number::hex(ns as nat)),
{
    let s = id_of(ns, seq);
    let d = number::dec(seq as int);
    let h = number::hex(ns as nat);
    assert(s.skip(s.len() - d.len()) =~= d);
    assert(s.take(h.len() as int) =~= h);
}

/// A message that is told anew keeps its id, its turn and its moment; events that are no
/// such message stay as they are, and every event is one of its id or is not.
pub proof fn law_retelling_keeps_the_rest(before: TraceEvent, after: TraceEvent, id: Seq<char>, word: Seq<char>)
    requires
        is_retold(before, after, id, word),
    ensures
        !carries(before, id) ==> after == before,
        match (before, after) {
            (
                TraceEvent::MsgIn { id: a, turn: t, ts: x, trigger: g, ignored: i, .. },
                TraceEvent::MsgIn { id: b, turn: u, ts: y, trigger: h, ignored: j, text },
            ) => a == b && t == u && x == y && g == h && i == j && (text::opt_view(a) == Some(id) ==> text@ == word),
            (
                TraceEvent::MsgOut { id: a, turn: t, ts: x, model: g, .. },
                TraceEvent::MsgOut { id: b, turn: u, ts: y, model: h, text, .. },
            ) => a == b && t == u && x == y && g == h && (text::opt_view(a) == Some(id) ==> text@ == word),
            _ => after == before,
        },
        before is Cmd || before is Decide || before is Think || before is LiteOut || before is Fold || before is Error
            ==> !carries(before, id),
{
}

/// A timeline keeps its newest six hundred events.
pub proof fn law_timeline_keeps_the_newest(events: Seq<TraceEvent>, ev: TraceEvent)
    ensures
        events.len() < 600 ==> lists::newest(events.push(ev), TRACE_CAP as int) == events.push(ev),
        events.len() >= 600 ==> lists::newest(events.push(ev), TRACE_CAP as int) == events.push(ev).skip(
            events.len() + 1 - 600,
        ),
{
}

/// Only messages carry an id, and only their own.
pub proof fn law_only_messages_carry_ids(e: TraceEvent, id: Seq<char>)
    ensures
        carries(e, id) ==> e is MsgIn || e is MsgOut,
        match e {
            TraceEvent::MsgIn { id: Some(i), .. } => carries(e, id) <==> i@ == id,
            TraceEvent::MsgOut { id: Some(i), .. } => carries(e, id) <==> i@ == id,
            _ => !carries(e, id),
        },
{
}

} // verus!
