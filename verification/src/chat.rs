//! How a message is dealt with, from its coming in to the reply.
//!
//! A message is first routed: passed over, only noted, taken as a command, or answered,
//! where the model may be asked first whether an answer is due. An answer goes through
//! the session, the model and the clean-up of what the model said. What is decided at
//! each turn is here; the application performs it and comes back with what happened.

use vstd::prelude::*;
use vstd::string::*;
use crate::agent::tools;
use crate::agent::AgentMode;
use crate::config;
use crate::config::{Config, TrailConfig};
use crate::context;
use crate::events::SessionStatus;
use crate::llm;
use crate::json::PartView;
use crate::llm::{ApiMessage, LlmReply, StreamEvent};
use crate::memory;
use crate::memory::{MemoryEntryView, MemoryOp, MemoryOpView, MemoryStore};
use crate::napcat;
use crate::napcat::{ActionCall, ActionCallView, MsgKind, ParsedMsg};
use crate::outbound;
use crate::session::SessionRow;
use crate::text;
use crate::trace::TraceEvent;

verus! {

// ---------- routing ----------

/// Where a message goes.
pub enum Route {
    /// It is the bot's own; nothing happens.
    Own,
    /// It begins with a prefix that is not to be looked at; it is noted.
    Ignored,
    /// Everything, or this session, is paused; it is noted.
    Paused,
    /// A command, which is carried out at once.
    Command,
    /// It is meant for the bot, in the way described.
    Called(&'static str),
    /// It names the bot.
    Named,
    /// It may be joined in; this is what it says.
    Chance(String),
    /// None of these; it is noted.
    Passed,
}

pub enum RouteView {
    Own,
    Ignored,
    Paused,
    Command,
    Called(Seq<char>),
    Named,
    Chance(Seq<char>),
    Passed,
}

impl View for Route {
    type V = RouteView;

    open spec fn view(&self) -> RouteView {
        match self {
            Route::Own => RouteView::Own,
            Route::Ignored => RouteView::Ignored,
            Route::Paused => RouteView::Paused,
            Route::Command => RouteView::Command,
            Route::Called(h) => RouteView::Called(h@),
            Route::Named => RouteView::Named,
            Route::Chance(w) => RouteView::Chance(w@),
            Route::Passed => RouteView::Passed,
        }
    }
}

/// How a message that is meant for the bot concerns it.
pub open spec fn hint_of(kind: MsgKind, at_me: bool, reply_me: bool) -> Seq<char> {
    if at_me {
        "对方 @ 了你"@
    } else if reply_me {
        "对方引用回复了你的消息"@
    } else if kind == MsgKind::Private {
        "这是发给你的私聊消息"@
    } else {
        "消息包含触发关键词"@
    }
}

pub fn hint(msg: &ParsedMsg) -> (r: &'static str)
    ensures
        r@ == hint_of(msg.kind, msg.at_me, msg.reply_me),
{
    if msg.at_me {
        "对方 @ 了你"
    } else if msg.reply_me {
        "对方引用回复了你的消息"
    } else if msg.kind == MsgKind::Private {
        "这是发给你的私聊消息"
    } else {
        "消息包含触发关键词"
    }
}

/// The commands that get through a paused session.
pub open spec fn is_pause_control(words: Seq<char>) -> bool {
    let t = crate::trigger::strip_quote_of(text::trim_of(words));
    t == "/pause"@ || t == "/resume"@
}

/// A command: a slash at the beginning, or behind a quotation.
pub open spec fn is_command(words: Seq<char>) -> bool {
    text::begins(crate::trigger::strip_quote_of(text::trim_start_of(words)), "/"@)
}

/// Where a message goes: pauses come before commands, commands before calls, calls
/// before names, and names before chance.
pub open spec fn route_of(
    cfg: Config,
    prefixes: Seq<char>,
    msg: napcat::ParsedMsgView,
    all_paused: bool,
    session_paused: bool,
) -> RouteView {
    let words = crate::trigger::strip_keyword_of(msg.text, cfg.napcat.keyword@);
    if msg.is_self {
        RouteView::Own
    } else if crate::trigger::is_ignored(prefixes, msg.text) {
        RouteView::Ignored
    } else if all_paused || (session_paused && !is_pause_control(msg.text)) {
        RouteView::Paused
    } else if is_command(msg.text) {
        RouteView::Command
    } else if crate::trigger::is_passive_hit(cfg, msg.kind, msg.text, msg.at_me, msg.reply_me) {
        RouteView::Called(hint_of(msg.kind, msg.at_me, msg.reply_me))
    } else if msg.kind == MsgKind::Group && crate::trigger::is_soft_at(cfg, msg.text) {
        RouteView::Named
    } else if msg.kind == MsgKind::Group && words.len() > 0 {
        RouteView::Chance(words)
    } else {
        RouteView::Passed
    }
}

/// Where a message goes.
pub fn route(cfg: &Config, prefixes: &str, msg: &ParsedMsg, all_paused: bool, session_paused: bool) -> (r:
    Route)
    ensures
        r@ == route_of(*cfg, prefixes@, msg@, all_paused, session_paused),
{
    if msg.is_self {
        return Route::Own;
    }
    let said = msg.text.as_str();
    if crate::trigger::ignore_prefix_hit(prefixes, said) {
        return Route::Ignored;
    }
    if all_paused {
        return Route::Paused;
    }
    let t = crate::trigger::strip_quote_prefix(text::trim(said));
    let control = text::same(t, "/pause") || text::same(t, "/resume");
    if session_paused && !control {
        return Route::Paused;
    }
    if text::starts_with(crate::trigger::strip_quote_prefix(text::trim_start(said)), "/") {
        return Route::Command;
    }
    if crate::trigger::passive_hit(cfg, msg) {
        return Route::Called(hint(msg));
    }
    if msg.kind == MsgKind::Group && crate::trigger::soft_at_hit(cfg, said) {
        return Route::Named;
    }
    let words = crate::trigger::strip_keyword(said, cfg.napcat.keyword.as_str());
    if msg.kind == MsgKind::Group && !words.is_empty() {
        return Route::Chance(words.to_owned());
    }
    Route::Passed
}

/// Whether a message counts towards how busy its session is: not where it was passed
/// over or is held back by a pause.
pub fn counts(r: &Route) -> (b: bool)
    ensures
        b == !(r@ is Own || r@ is Ignored || r@ is Paused),
{
    !matches!(r, Route::Own | Route::Ignored | Route::Paused)
}

/// The span over which a session's pace is measured, in seconds.
pub fn activity_window(cfg: &Config) -> (r: u64)
    ensures
        r == context::window_secs_of(cfg.chat.interject.activity_window_minutes),
{
    context::window_secs(cfg.chat.interject.activity_window_minutes)
}

/// What is done with a message.
#[derive(Debug, Clone, Copy, PartialEq, Eq, Structural)]
pub enum Then {
    /// Answered in the session.
    Dialogue,
    /// Answered in passing.
    Light,
    /// Not answered.
    Note,
}

/// What is done with a message, and what is noted besides.
#[derive(Debug, Clone, Copy, PartialEq, Eq, Structural)]
pub struct Steps {
    /// It counts as an interjection.
    pub mark: bool,
    /// It is noted among what was said lately.
    pub trail: bool,
    pub next: Then,
}

/// A message of its kind of route, `yes` saying that an answer is due. For a chance,
/// `yes` is said of one that was taken; a no uses it up.
pub open spec fn steps_of(r: RouteView, yes: bool, full_context: bool) -> Steps {
    match r {
        RouteView::Command => Steps { mark: false, trail: false, next: Then::Dialogue },
        RouteView::Called(_) => Steps {
            mark: false,
            trail: false,
            next: if yes {
                Then::Dialogue
            } else {
                Then::Note
            },
        },
        RouteView::Named => Steps {
            mark: yes,
            trail: false,
            next: if yes {
                Then::Dialogue
            } else {
                Then::Note
            },
        },
        RouteView::Chance(_) => if !yes {
            Steps { mark: true, trail: false, next: Then::Note }
        } else if full_context {
            Steps { mark: false, trail: false, next: Then::Dialogue }
        } else {
            Steps { mark: false, trail: true, next: Then::Light }
        },
        RouteView::Passed => Steps { mark: false, trail: true, next: Then::Note },
        _ => Steps { mark: false, trail: false, next: Then::Note },
    }
}

/// What is done with a message once it is known whether an answer is due.
pub fn steps(r: &Route, yes: bool, full_context: bool) -> (s: Steps)
    ensures
        s == steps_of(r@, yes, full_context),
{
    match r {
        Route::Command => Steps { mark: false, trail: false, next: Then::Dialogue },
        Route::Called(_) => Steps {
            mark: false,
            trail: false,
            next: if yes {
                Then::Dialogue
            } else {
                Then::Note
            },
        },
        Route::Named => Steps {
            mark: yes,
            trail: false,
            next: if yes {
                Then::Dialogue
            } else {
                Then::Note
            },
        },
        Route::Chance(_) => if !yes {
            Steps { mark: true, trail: false, next: Then::Note }
        } else if full_context {
            Steps { mark: false, trail: false, next: Then::Dialogue }
        } else {
            Steps { mark: false, trail: true, next: Then::Light }
        },
        Route::Passed => Steps { mark: false, trail: true, next: Then::Note },
        _ => Steps { mark: false, trail: false, next: Then::Note },
    }
}

/// The route once the draw is known: a chance that was not taken has passed.
pub open spec fn sampled_of(r: RouteView, hit: bool) -> RouteView {
    if r is Chance && !hit {
        RouteView::Passed
    } else {
        r
    }
}

pub fn sampled(r: Route, hit: bool) -> (s: Route)
    ensures
        s@ == sampled_of(r@, hit),
{
    match r {
        Route::Chance(w) => if hit {
            Route::Chance(w)
        } else {
            Route::Passed
        },
        other => other,
    }
}

/// What the model is asked about a message whose answer it may turn down: the words, and
/// how they concern the bot.
pub open spec fn doubt_of(r: RouteView, words: Seq<char>) -> Option<(Seq<char>, Seq<char>)> {
    match r {
        RouteView::Called(h) => Some((words, h)),
        RouteView::Named => Some((words, "消息提到了你的称呼"@)),
        RouteView::Chance(w) => Some((w, "主动插话采样命中(是否接话)"@)),
        _ => None,
    }
}

pub fn doubt(r: &Route, words: &str) -> (d: Option<(String, &'static str)>)
    ensures
        match d {
            Some((w, h)) => doubt_of(r@, words@) == Some((w@, h@)),
            None => doubt_of(r@, words@) is None,
        },
{
    match r {
        Route::Called(h) => Some((words.to_owned(), *h)),
        Route::Named => Some((words.to_owned(), "消息提到了你的称呼")),
        Route::Chance(w) => Some((w.clone(), "主动插话采样命中(是否接话)")),
        _ => None,
    }
}

/// Under what heading a message that is not answered is noted in the timeline.
pub open spec fn note_of(r: RouteView) -> Seq<char> {
    match r {
        RouteView::Ignored => "ignored"@,
        RouteView::Paused => "paused"@,
        RouteView::Passed => "untriggered"@,
        _ => "decided_no"@,
    }
}

pub fn note_heading(r: &Route) -> (s: &'static str)
    ensures
        s@ == note_of(r@),
{
    match r {
        Route::Ignored => "ignored",
        Route::Paused => "paused",
        Route::Passed => "untriggered",
        _ => "decided_no",
    }
}

/// The entry in the timeline for a message that is not answered.
pub open spec fn is_note(e: TraceEvent, turn: Seq<char>, ts: i64, heading: Seq<char>, words: Seq<char>) -> bool {
    match e {
        TraceEvent::MsgIn { id, turn: t, ts: s, trigger, text, ignored } => id is None && t@ == turn && s
            == ts && trigger@ == heading && text@ == words && ignored,
        _ => false,
    }
}

pub fn note_entry(turn: &str, ts: i64, heading: &str, words: &str) -> (r: TraceEvent)
    ensures
        is_note(r, turn@, ts, heading@, words@),
{
    TraceEvent::MsgIn {
        id: None,
        turn: turn.to_owned(),
        ts,
        trigger: heading.to_owned(),
        text: words.to_owned(),
        ignored: true,
    }
}

/// Under what heading a message that is answered is noted in the timeline.
pub open spec fn label_of(kind: MsgKind, at_me: bool, reply_me: bool) -> Seq<char> {
    if kind == MsgKind::Private {
        "private"@
    } else if at_me {
        "at"@
    } else if reply_me {
        "reply"@
    } else {
        "keyword"@
    }
}

pub fn trigger_label(msg: &ParsedMsg) -> (r: &'static str)
    ensures
        r@ == label_of(msg.kind, msg.at_me, msg.reply_me),
{
    if msg.kind == MsgKind::Private {
        "private"
    } else if msg.at_me {
        "at"
    } else if msg.reply_me {
        "reply"
    } else {
        "keyword"
    }
}

/// How a line of a session is noted: groups only.
pub fn trail_noting(key: &str, cfg: &TrailConfig) -> (r: Option<(u64, usize)>)
    ensures
        r == if text::begins(key@, "g"@) {
            Some(context::noting_of(*cfg))
        } else {
            None
        },
{
    if text::starts_with(key, "g") {
        Some(context::noting(cfg))
    } else {
        None
    }
}

// ---------- whether an answer is due ----------

/// Whether the model is asked if an answer is due.
pub fn asks_decider(cfg: &Config) -> (r: bool)
    ensures
        r == (cfg.chat.decider && config::model_in_use(*cfg) is Some),
{
    cfg.chat.decider && cfg.active_model().is_some()
}

/// What came of the question whether an answer is due.
pub enum Decision {
    /// It was not asked, or not to the end, because of a pause.
    Cancelled,
    Said(bool),
    Failed(String),
}

/// Whether an answer is due: in doubt it is, but not in a pause.
pub open spec fn verdict_of(d: Decision) -> bool {
    match d {
        Decision::Cancelled => false,
        Decision::Said(yes) => yes,
        Decision::Failed(_) => true,
    }
}

/// The entry in the timeline about the question.
pub open spec fn is_decision_entry(
    e: TraceEvent,
    d: Decision,
    turn: Seq<char>,
    ts: i64,
    words: Seq<char>,
    model: Seq<char>,
    ms: u64,
) -> bool {
    match d {
        Decision::Said(yes) => match e {
            TraceEvent::Decide { turn: t, ts: s, text, verdict, model: m, ms: x } => t@ == turn && s == ts
                && text@ == words && verdict == yes && m@ == model && x == ms,
            _ => false,
        },
        Decision::Cancelled => match e {
            TraceEvent::Error { turn: t, ts: s, text } => t@ == turn && s == ts && text@
                == "已暂停,决策中止"@,
            _ => false,
        },
        Decision::Failed(why) => match e {
            TraceEvent::Error { turn: t, ts: s, text } => t@ == turn && s == ts && text@ == "决策器失败: "@
                + why@,
            _ => false,
        },
    }
}

/// Whether an answer is due, and what the timeline says about it.
pub fn decide(d: Decision, turn: &str, ts: i64, words: &str, model: &str, ms: u64) -> (r: (bool, TraceEvent))
    ensures
        r.0 == verdict_of(d),
        is_decision_entry(r.1, d, turn@, ts, words@, model@, ms),
{
    match d {
        Decision::Said(yes) => (
            yes,
            TraceEvent::Decide {
                turn: turn.to_owned(),
                ts,
                text: words.to_owned(),
                verdict: yes,
                model: model.to_owned(),
                ms,
            },
        ),
        Decision::Cancelled => (
            false,
            TraceEvent::Error { turn: turn.to_owned(), ts, text: "已暂停,决策中止".to_owned() },
        ),
        Decision::Failed(why) => {
            let mut t = "决策器失败: ".to_owned();
            t.append(why.as_str());
            (true, TraceEvent::Error { turn: turn.to_owned(), ts, text: t })
        },
    }
}

// ---------- a dialogue ----------

/// What is asked: the words behind a trigger word, or, where there are none, that there
/// are none.
pub open spec fn question_of(words: Seq<char>, keyword: Seq<char>, at_me: bool, reply_me: bool) -> Seq<char> {
    let t = crate::trigger::strip_keyword_of(words, keyword);
    if t.len() > 0 {
        t
    } else if at_me || reply_me {
        "(对方 @/引用了你,但没有附带文本内容)"@
    } else {
        "(对方发出了触发词,但没有附带文本内容)"@
    }
}

pub fn question(words: &str, keyword: &str, at_me: bool, reply_me: bool) -> (r: String)
    ensures
        r@ == question_of(words@, keyword@, at_me, reply_me),
{
    let t = crate::trigger::strip_keyword(words, keyword);
    if !t.is_empty() {
        t.to_owned()
    } else if at_me || reply_me {
        "(对方 @/引用了你,但没有附带文本内容)".to_owned()
    } else {
        "(对方发出了触发词,但没有附带文本内容)".to_owned()
    }
}

/// How a dialogue ends, or goes on.
pub enum Ending {
    /// The reply was empty; once more, without thinking.
    Retry,
    Reply(LlmReply),
    /// The user stopped it; `tell` where that has to be said.
    Stopped { tell: bool },
    /// It failed for this reason.
    Failed(String),
}

/// The model's answer taken up: an empty one is asked for once more and only once, and a
/// stop by the user is no failure.
pub open spec fn is_ending(
    e: Ending,
    result: Result<LlmReply, String>,
    retried: bool,
    hint_sent: bool,
) -> bool {
    match result {
        Ok(reply) => e == Ending::Reply(reply),
        Err(why) => if !retried && text::begins(why@, "模型返回空内容"@) {
            e == Ending::Retry
        } else if why@ == "用户已停止本次回复"@ {
            e == Ending::Stopped { tell: hint_sent }
        } else {
            e == Ending::Failed(why)
        },
    }
}

/// Takes up the model's answer; `retried` says that it is the second, `hint_sent` that
/// the user was asked to wait.
pub fn conclude(result: Result<LlmReply, String>, retried: bool, hint_sent: bool) -> (r: Ending)
    ensures
        is_ending(r, result, retried, hint_sent),
{
    match result {
        Ok(reply) => Ending::Reply(reply),
        Err(why) => {
            if !retried && llm::is_empty_reply_err(why.as_str()) {
                return Ending::Retry;
            }
            if text::same(why.as_str(), llm::user_stopped()) {
                return Ending::Stopped { tell: hint_sent };
            }
            Ending::Failed(why)
        },
    }
}

/// What the user is told of a failure.
pub fn failure_text(why: &str) -> (r: String)
    ensures
        r@ == "⚠️ 出错了: "@ + why@,
{
    let mut s = "⚠️ 出错了: ".to_owned();
    s.append(why);
    s
}

/// What the user is told of a stop.
pub fn stopped_text() -> (r: &'static str)
    ensures
        r@ == "⏹ 回复已停止。"@,
{
    "⏹ 回复已停止。"
}

/// The reply without the marks for the memory and for tasks, cleaned up.
pub open spec fn unmarked_of(reply: Seq<char>) -> Seq<char> {
    outbound::sanitize_of(tools::task_ops_of(memory::memory_ops_of(reply).0).0)
}

/// The tasks that the reply asks for.
pub open spec fn tasks_of(reply: Seq<char>) -> Seq<(AgentMode, Seq<char>)> {
    tools::task_ops_of(memory::memory_ops_of(reply).0).1
}

/// The reply as it is sent: without marks, cleaned up, and never empty.
pub open spec fn outgoing_of(reply: Seq<char>) -> Seq<char> {
    let t = unmarked_of(reply);
    if t.len() == 0 {
        "(模型未返回内容)"@
    } else {
        t
    }
}

/// The reply as it is sent, what it asks of the memory, and the tasks it asks for.
pub fn digest_reply(reply: &str) -> (r: (String, Vec<MemoryOp>, Vec<(AgentMode, String)>))
    ensures
        r.0@ == outgoing_of(reply@),
        memory::op_views(r.1@) == memory::memory_ops_of(reply@).1,
        tools::mark_views(r.2@) == tasks_of(reply@),
{
    let (told, ops) = memory::parse_memory_ops(reply);
    let (clean, tasks) = tools::parse_task_ops(told.as_str());
    let out = outbound::sanitize_reply(clean.as_str());
    if out.as_str().is_empty() {
        ("(模型未返回内容)".to_owned(), ops, tasks)
    } else {
        (out, ops, tasks)
    }
}

/// One wish carried out on the memory.
pub open spec fn op_applied(
    items: Seq<MemoryEntryView>,
    op: MemoryOpView,
    max_entries: int,
    max_chars: int,
    now: i64,
) -> Seq<MemoryEntryView> {
    match op {
        MemoryOpView::Add(t) => {
            let c = text::trim_of(t);
            if c.len() == 0 || memory::remembers(items, c) {
                items
            } else {
                memory::with_entry(
                    items,
                    MemoryEntryView { ts: now, source: "model"@, text: c },
                    max_entries,
                    max_chars,
                )
            }
        },
        MemoryOpView::Remove(needle) => {
            let c = text::trim_of(needle);
            if c.len() == 0 {
                items
            } else {
                items.filter(|e: MemoryEntryView| !text::includes(e.text, c))
            }
        },
    }
}

/// Wishes carried out in their order.
pub open spec fn ops_applied(
    items: Seq<MemoryEntryView>,
    ops: Seq<MemoryOpView>,
    max_entries: int,
    max_chars: int,
    now: i64,
) -> Seq<MemoryEntryView>
    decreases ops.len(),
{
    if ops.len() == 0 {
        items
    } else {
        op_applied(
            ops_applied(items, ops.drop_last(), max_entries, max_chars, now),
            ops.last(),
            max_entries,
            max_chars,
            now,
        )
    }
}

/// A wish changes something: a new entry, or fewer of them.
pub open spec fn op_changes(items: Seq<MemoryEntryView>, op: MemoryOpView) -> bool {
    match op {
        MemoryOpView::Add(t) => text::trim_of(t).len() > 0 && !memory::remembers(items, text::trim_of(t)),
        MemoryOpView::Remove(needle) => text::trim_of(needle).len() > 0 && items.filter(
            |e: MemoryEntryView| !text::includes(e.text, text::trim_of(needle)),
        ).len() < items.len(),
    }
}

/// Some of the wishes changes something.
pub open spec fn ops_change(
    items: Seq<MemoryEntryView>,
    ops: Seq<MemoryOpView>,
    max_entries: int,
    max_chars: int,
    now: i64,
) -> bool
    decreases ops.len(),
{
    ops.len() > 0 && (ops_change(items, ops.drop_last(), max_entries, max_chars, now) || op_changes(
        ops_applied(items, ops.drop_last(), max_entries, max_chars, now),
        ops.last(),
    ))
}

/// Carries out what a reply asks of the memory, if it is on; says whether anything has
/// changed.
pub fn apply_memory_ops(m: &mut MemoryStore, ops: &Vec<MemoryOp>, cfg: &config::MemoryConfig, now: i64) -> (r:
    bool)
    ensures
        final(m).items() == if cfg.enabled {
            ops_applied(
                old(m).items(),
                memory::op_views(ops@),
                cfg.max_entries as int,
                cfg.max_entry_chars as int,
                now,
            )
        } else {
            old(m).items()
        },
        r == (cfg.enabled && ops_change(
            old(m).items(),
            memory::op_views(ops@),
            cfg.max_entries as int,
            cfg.max_entry_chars as int,
            now,
        )),
        final(m).file == old(m).file,
{
    if !cfg.enabled {
        return false;
    }
    let ghost start = m.items();
    let ghost all = memory::op_views(ops@);
    let ghost most = cfg.max_entries as int;
    let ghost long = cfg.max_entry_chars as int;
    let mut changed = false;
    let mut i: usize = 0;
    assert(ops_applied(start, all.take(0), most, long, now) == start);
    while i < ops.len()
        invariant
            i <= ops@.len(),
            all == memory::op_views(ops@),
            most == cfg.max_entries,
            long == cfg.max_entry_chars,
            m.items() == ops_applied(start, all.take(i as int), most, long, now),
            changed == ops_change(start, all.take(i as int), most, long, now),
            m.file == old(m).file,
        decreases ops@.len() - i,
    {
        let ghost before = m.items();
        proof {
            assert(all.take(i + 1).drop_last() == all.take(i as int));
            assert(all.take(i + 1).last() == ops@[i as int]@);
        }
        match &ops[i] {
            MemoryOp::Add(t) => {
                if m.add_at(
                    t.as_str(),
                    "model",
                    cfg.max_entries as usize,
                    cfg.max_entry_chars as usize,
                    now,
                ) {
                    changed = true;
                }
            },
            MemoryOp::Remove(needle) => {
                if m.remove_contains(needle.as_str()) > 0 {
                    changed = true;
                }
            },
        }
        i += 1;
    }
    assert(all.take(all.len() as int) == all);
    changed
}

// ---------- while the model answers ----------

/// What is known of a reply under way. Moments are in nanoseconds.
#[derive(Debug, Clone, Copy, PartialEq, Eq, Structural)]
pub struct StreamWatch {
    /// The user was asked to wait.
    pub hint_sent: bool,
    /// When the first piece came.
    pub first_at: Option<i128>,
    /// Whether text has come, and not only thoughts.
    pub got_content: bool,
}

pub open spec fn unwatched() -> StreamWatch {
    StreamWatch { hint_sent: false, first_at: None, got_content: false }
}

/// A piece came.
pub open spec fn piece_seen(w: StreamWatch, content: bool, now: i128) -> StreamWatch {
    StreamWatch {
        hint_sent: w.hint_sent,
        first_at: match w.first_at {
            Some(t) => Some(t),
            None => Some(now),
        },
        got_content: w.got_content || content,
    }
}

/// The user is to be asked to wait: thoughts alone take longer than the delay since the
/// first piece, or nothing at all has come for twice the delay and a quarter of a minute.
pub open spec fn wants_hint(w: StreamWatch, enabled: bool, delay_secs: u64, started: i128, now: i128) -> bool {
    &&& enabled
    &&& !w.hint_sent
    &&& match w.first_at {
        Some(t) => !w.got_content && now - t >= delay_secs * 1_000_000_000,
        None => now - started >= (2 * delay_secs + 15) * 1_000_000_000,
    }
}

impl StreamWatch {
    pub fn new() -> (r: StreamWatch)
        ensures
            r == unwatched(),
    {
        StreamWatch { hint_sent: false, first_at: None, got_content: false }
    }

    /// Takes note of a piece; gives what the session is doing.
    pub fn on_event(&mut self, ev: &StreamEvent, now: i128) -> (r: SessionStatus)
        ensures
            *final(self) == piece_seen(*old(self), ev@ is Content, now),
            r == if ev@ is Content {
                SessionStatus::Replying
            } else {
                SessionStatus::Thinking
            },
    {
        if self.first_at.is_none() {
            self.first_at = Some(now);
        }
        match ev {
            StreamEvent::Reasoning { .. } => SessionStatus::Thinking,
            StreamEvent::Content { .. } => {
                self.got_content = true;
                SessionStatus::Replying
            },
        }
    }

    /// Looks at the clock; says whether the user is to be asked to wait.
    pub fn on_tick(&mut self, enabled: bool, delay_secs: u64, started: i128, now: i128) -> (r: bool)
        requires
            0 <= started,
            0 <= now,
            old(self).first_at matches Some(t) ==> t >= 0,
        ensures
            r == wants_hint(*old(self), enabled, delay_secs, started, now),
            *final(self) == (StreamWatch { hint_sent: old(self).hint_sent || r, ..*old(self) }),
    {
        if !enabled || self.hint_sent {
            return false;
        }
        let due = match self.first_at {
            Some(t) => !self.got_content && now - t >= delay_secs as i128 * 1_000_000_000,
            None => now - started >= (2 * delay_secs as i128 + 15) * 1_000_000_000,
        };
        if due {
            self.hint_sent = true;
        }
        due
    }
}

// ---------- sending ----------

/// A piece of a reply on its way.
pub struct Outgoing {
    /// What the reader sees.
    pub chunk: String,
    pub call: ActionCall,
}

/// The sending of a piece to where the message came from.
pub open spec fn call_for(kind: MsgKind, group_id: Option<i64>, user_id: i64, chunk: Seq<char>) -> ActionCallView {
    let t = outbound::cq_escape_of(chunk);
    match kind {
        MsgKind::Group => napcat::group_msg_of(
            match group_id {
                Some(g) => g,
                None => 0,
            },
            t,
        ),
        MsgKind::Private => napcat::private_msg_of(user_id, t),
    }
}

/// The pieces of a text that are sent; nothing is sent of line ends alone.
pub open spec fn pieces_of(words: Seq<char>, max: int) -> Seq<Seq<char>> {
    if outbound::bare_of(words).len() == 0 {
        Seq::<Seq<char>>::empty()
    } else {
        outbound::segment_of(words, max)
    }
}

/// The pieces of a reply, in the order in which they are sent.
pub fn send_plan(msg: &ParsedMsg, words: &str, max_len: usize) -> (r: Vec<Outgoing>)
    ensures
        r@.len() == pieces_of(words@, max_len as int).len(),
        forall|i: int|
            0 <= i < r@.len() ==> {
                &&& (#[trigger] r@[i]).chunk@ == pieces_of(words@, max_len as int)[i]
                &&& r@[i].call@ == call_for(msg.kind, msg.group_id, msg.user_id, r@[i].chunk@)
            },
        forall|i: int|
            0 <= i < r@.len() ==> {
                let c = (#[trigger] r@[i]).call@;
                &&& msg.kind == MsgKind::Private ==> c.action == "send_private_msg"@ && c.params.contains(
                    ("user_id"@, PartView::Int(msg.user_id)),
                )
                &&& msg.kind == MsgKind::Group ==> c.action == "send_group_msg"@ && (msg.group_id matches Some(
                    g,
                ) ==> c.params.contains(("group_id"@, PartView::Int(g))))
            },
{
    let mut r: Vec<Outgoing> = Vec::new();
    if outbound::has_no_words(words) {
        return r;
    }
    let chunks = outbound::segment_text(words, max_len);
    let ghost all = text::views(chunks@);
    let mut i: usize = 0;
    while i < chunks.len()
        invariant
            i <= chunks@.len(),
            r@.len() == i,
            all == text::views(chunks@),
            forall|k: int|
                0 <= k < i ==> {
                    &&& (#[trigger] r@[k]).chunk@ == all[k]
                    &&& r@[k].call@ == call_for(msg.kind, msg.group_id, msg.user_id, r@[k].chunk@)
                },
        decreases chunks@.len() - i,
    {
        let chunk = chunks[i].clone();
        let escaped = outbound::cq_escape(chunk.as_str());
        let call = match msg.kind {
            MsgKind::Group => {
                let g: i64 = match msg.group_id {
                    Some(g) => g,
                    None => 0,
                };
                napcat::send_group_msg(g, escaped.as_str())
            },
            MsgKind::Private => napcat::send_private_msg(msg.user_id, escaped.as_str()),
        };
        r.push(Outgoing { chunk, call });
        i += 1;
    }
    proof {
        assert forall|i: int| 0 <= i < r@.len() implies {
            let c = (#[trigger] r@[i]).call@;
            &&& msg.kind == MsgKind::Private ==> c.action == "send_private_msg"@ && c.params.contains(
                ("user_id"@, PartView::Int(msg.user_id)),
            )
            &&& msg.kind == MsgKind::Group ==> c.action == "send_group_msg"@ && (msg.group_id matches Some(
                g,
            ) ==> c.params.contains(("group_id"@, PartView::Int(g))))
        } by {
            law_reply_goes_back(msg.kind, msg.group_id, msg.user_id, r@[i].chunk@);
        }
    }
    r
}

// ---------- in passing ----------

pub open spec fn light_rules() -> Seq<char> {
    "\n\n(现在是群聊中的随口插话场景:请用一两句话自然、口语化地回应,不要称呼任何人,不要使用列表或长篇大论。\n思考过程请保持简短:只需要确定该接什么话即可。)"@
}

/// The question for an answer in passing.
pub fn light_messages(prompt: &str, sender: i64, words: &str) -> (r: Vec<ApiMessage>)
    ensures
        llm::msgs_view(r@) == seq![
            llm::msg_of("system"@, prompt@ + light_rules()),
            llm::msg_of("user"@, context::speaker_of(sender) + words@),
        ],
{
    let mut system = prompt.to_owned();
    system.append(
        "\n\n(现在是群聊中的随口插话场景:请用一两句话自然、口语化地回应,不要称呼任何人,不要使用列表或长篇大论。\n思考过程请保持简短:只需要确定该接什么话即可。)",
    );
    let mut user = context::speaker_prefix(sender);
    user.append(words);
    let r = vec![llm::message("system", system), llm::message("user", user)];
    assert(llm::msgs_view(r@) =~= seq![r@[0]@, r@[1]@]);
    r
}

/// The most tokens that an answer in passing may take.
pub fn light_budget(cfg: &Config) -> (r: u32)
    ensures
        r == if cfg.chat.interject.interject_max_tokens < 16 {
            16
        } else {
            cfg.chat.interject.interject_max_tokens
        },
        r >= 16 && r >= cfg.chat.interject.interject_max_tokens,
        r == 16 || r == cfg.chat.interject.interject_max_tokens,
{
    if cfg.chat.interject.interject_max_tokens < 16 {
        16
    } else {
        cfg.chat.interject.interject_max_tokens
    }
}

/// An answer in passing as it is sent; nothing where nothing is left of it. Its marks are
/// taken out and not carried out.
pub fn light_reply(reply: &str) -> (r: Option<String>)
    ensures
        ({
            let t = unmarked_of(reply@);
            match r {
                Some(s) => s@ == t && t.len() > 0,
                None => t.len() == 0,
            }
        }),
{
    let (told, _) = memory::parse_memory_ops(reply);
    let (clean, _) = tools::parse_task_ops(told.as_str());
    let out = outbound::sanitize_reply(clean.as_str());
    if out.as_str().is_empty() {
        None
    } else {
        Some(out)
    }
}

/// A row of the list of sessions, with what is in memory taking the place of what is in
/// the file.
pub fn with_memory(row: SessionRow, held: Option<(usize, u64, bool)>) -> (r: SessionRow)
    ensures
        r.key == row.key,
        match held {
            Some(h) => r.count == h.0 && r.tokens == h.1 && r.has_summary == h.2,
            None => r == row,
        },
{
    match held {
        Some(h) => SessionRow { key: row.key, count: h.0, tokens: h.1, has_summary: h.2 },
        None => row,
    }
}

// ---------- laws ----------

/// A pause is a pause: while everything is paused nothing is answered, whatever the
/// message; in a paused session nothing is but the two commands about the pause.
pub proof fn law_pause_silences(
    cfg: Config,
    prefixes: Seq<char>,
    msg: napcat::ParsedMsgView,
    all_paused: bool,
    session_paused: bool,
    yes: bool,
    full_context: bool,
)
    requires
        all_paused || (session_paused && !is_pause_control(msg.text)),
    ensures
        steps_of(route_of(cfg, prefixes, msg, all_paused, session_paused), yes, full_context).next
            == Then::Note,
        !steps_of(route_of(cfg, prefixes, msg, all_paused, session_paused), yes, full_context).trail,
{
}

/// White space in front is cut off, and what stands behind the rest stays.
proof fn lemma_trim_start_concat(a: Seq<char>, b: Seq<char>)
    requires
        text::trim_start_of(a).len() > 0,
    ensures
        text::trim_start_of(a + b) == text::trim_start_of(a) + b,
    decreases a.len(),
{
    if a.len() > 0 && text::is_space(a[0]) {
        assert((a + b).skip(1) =~= a.skip(1) + b);
        lemma_trim_start_concat(a.skip(1), b);
    }
}

/// The two commands about the pause are commands.
proof fn lemma_pause_control_is_command(words: Seq<char>)
    requires
        is_pause_control(words),
    ensures
        is_command(words),
        text::begins(crate::trigger::strip_quote_of(text::trim_of(words)), "/"@),
{
    reveal_strlit("/");
    reveal_strlit("/pause");
    reveal_strlit("/resume");
    reveal_strlit("[引用");
    let whole = text::trim_start_of(words);
    let t = text::trim_of(words);
    let cmd = crate::trigger::strip_quote_of(t);
    text::lemma_trim_end(whole);
    let rest = whole.skip(t.len() as int);
    assert(whole =~= t + rest);
    assert(cmd[0] == '/');
    assert(cmd.take(1) =~= "/"@);
    if text::begins(t, "[引用"@) {
        assert(t[0] == '[') by {
            assert(t.take(3)[0] == "[引用"@[0]);
        }
        assert(whole.take(3) =~= t.take(3));
        text::lemma_char_from(t, ']', 0);
        let i = text::find_char_of(t, ']')->0;
        text::lemma_char_from(whole, ']', 0);
        let j = text::find_char_of(whole, ']')->0;
        assert(whole[i] == t[i]);
        assert(j == i) by {
            if j < i {
                assert(t[j] == whole[j]);
            }
        }
        assert(whole.skip(i + 1) =~= t.skip(i + 1) + rest);
        lemma_trim_start_concat(t.skip(i + 1), rest);
        assert((cmd + rest).take(1) =~= "/"@);
    } else {
        assert(whole[0] == t[0]);
        if text::begins(whole, "[引用"@) {
            assert(whole.take(3)[0] == "[引用"@[0]);
        }
        assert(whole.take(1) =~= "/"@);
    }
}

/// A pause of a session can be lifted, and set, from within: the two commands about it
/// get through, paused or not, and are carried out as what they are.
pub proof fn law_pause_can_be_lifted(
    cfg: Config,
    prefixes: Seq<char>,
    msg: napcat::ParsedMsgView,
    session_paused: bool,
    t: crate::dialogue::TurnView,
    s: crate::session::SessionView,
    now: i64,
)
    requires
        !msg.is_self,
        !crate::trigger::is_ignored(prefixes, msg.text),
        is_pause_control(msg.text),
        t.stage == crate::dialogue::Stage::Start,
        t.words == msg.text,
    ensures
        route_of(cfg, prefixes, msg, false, session_paused) == RouteView::Command,
        ({
            let cmd = crate::dialogue::gist_of(t);
            &&& crate::dialogue::turn_step(t, crate::dialogue::Event::Begun { busy: false }).1
                == crate::dialogue::ActionView::Try(cmd)
            &&& crate::botcmd::command_of(s, cfg, msg.kind, cmd, now) matches Some(o) && o.session == s
                && o.effect == crate::botcmd::EffectView::SetPaused(cmd == "/pause"@)
        }),
{
    reveal_strlit("/pause");
    reveal_strlit("/resume");
    assert("/pause"@.len() == 6 && "/resume"@.len() == 7);
    lemma_pause_control_is_command(msg.text);
    crate::botcmd::law_pause_is_at_command(s, cfg, msg.kind, now);
}

/// The bot does not answer itself.
pub proof fn law_own_messages_pass(
    cfg: Config,
    prefixes: Seq<char>,
    msg: napcat::ParsedMsgView,
    all_paused: bool,
    session_paused: bool,
)
    requires
        msg.is_self,
    ensures
        route_of(cfg, prefixes, msg, all_paused, session_paused) == RouteView::Own,
{
}

/// A command is never swallowed: where nothing is paused and no prefix hides it, it goes
/// through, in a group as in private, called or not, and no decision stands in its way.
pub proof fn law_commands_get_through(
    cfg: Config,
    prefixes: Seq<char>,
    msg: napcat::ParsedMsgView,
    yes: bool,
    full_context: bool,
)
    requires
        !msg.is_self,
        is_command(msg.text),
        !crate::trigger::is_ignored(prefixes, msg.text),
    ensures
        route_of(cfg, prefixes, msg, false, false) == RouteView::Command,
        steps_of(RouteView::Command, yes, full_context).next == Then::Dialogue,
{
}

/// A message that calls the bot is answered unless the model was asked and said no.
pub proof fn law_calls_are_answered(
    cfg: Config,
    prefixes: Seq<char>,
    msg: napcat::ParsedMsgView,
    full_context: bool,
    d: Decision,
)
    requires
        !msg.is_self,
        !crate::trigger::is_ignored(prefixes, msg.text),
        crate::trigger::is_passive_hit(cfg, msg.kind, msg.text, msg.at_me, msg.reply_me),
    ensures
        ({
            let r = route_of(cfg, prefixes, msg, false, false);
            &&& r is Command || r is Called
            &&& d is Failed || d == Decision::Said(true) ==> steps_of(
                r,
                verdict_of(d),
                full_context,
            ).next == Then::Dialogue
        }),
{
}

/// A message that is answered, and is no command, is one that the model was asked about,
/// where it is asked at all; and a chance that was not taken is never answered.
pub proof fn law_no_answer_unasked(r: RouteView, words: Seq<char>, hit: bool, yes: bool, full_context: bool)
    ensures
        ({
            let s = sampled_of(r, hit);
            &&& steps_of(s, yes, full_context).next != Then::Note ==> s is Command || (doubt_of(
                s,
                words,
            ) is Some && yes)
            &&& r is Chance && !hit ==> steps_of(s, yes, full_context) == (Steps {
                mark: false,
                trail: true,
                next: Then::Note,
            })
        }),
{
}

/// An empty reply is asked for again only once, and a stop by the user is never told as
/// a failure.
pub proof fn law_one_retry_no_blame(e: Ending, result: Result<LlmReply, String>, retried: bool, hint_sent: bool)
    requires
        is_ending(e, result, retried, hint_sent),
    ensures
        retried ==> !(e is Retry),
        e matches Ending::Failed(why) ==> why@ != "用户已停止本次回复"@,
        result is Ok <==> e is Reply,
{
}

/// The user is asked to wait at most once, and not once text has come.
pub proof fn law_hint_once(w: StreamWatch, enabled: bool, delay_secs: u64, started: i128, now: i128)
    ensures
        w.hint_sent || w.got_content && w.first_at is Some ==> !wants_hint(
            w,
            enabled,
            delay_secs,
            started,
            now,
        ),
        wants_hint(w, enabled, delay_secs, started, now) ==> !wants_hint(
            StreamWatch { hint_sent: true, ..w },
            enabled,
            delay_secs,
            started,
            now,
        ),
        !enabled ==> !wants_hint(w, enabled, delay_secs, started, now),
{
}

/// A reply without marks is sent as it is, cleaned up.
pub proof fn law_unmarked_reply_is_sent(reply: Seq<char>)
    requires
        text::tag_of(reply, "[记忆:"@) is None,
        text::tag_of(reply, "[任务:"@) is None,
        outbound::sanitize_of(reply).len() > 0,
    ensures
        outgoing_of(reply) == outbound::sanitize_of(reply),
        tasks_of(reply).len() == 0,
{
}

/// A task that a reply asks for is started and not read out: what is cleaned up and sent
/// is shorter by its mark at least, and the task has a goal.
pub proof fn law_task_marks_are_taken_out(reply: Seq<char>)
    ensures
        tasks_of(reply).len() > 0 ==> tools::task_ops_of(memory::memory_ops_of(reply).0).0.len()
            < memory::memory_ops_of(reply).0.len(),
        forall|i: int| 0 <= i < tasks_of(reply).len() ==> (#[trigger] tasks_of(reply)[i]).1.len() > 0,
{
    tools::law_marks_are_taken_out(memory::memory_ops_of(reply).0);
    tools::law_marked_tasks_have_goals(memory::memory_ops_of(reply).0);
}

/// What reaches the reader is the reply: the pieces, with the escapes read back, are
/// together the reply itself but for line ends.
pub proof fn law_sent_is_said(words: Seq<char>, max: int, unescaped: Seq<Seq<char>>)
    requires
        unescaped.len() == pieces_of(words, max).len(),
        forall|i: int|
            0 <= i < unescaped.len() ==> #[trigger] unescaped[i] == outbound::cq_unescape_of(
                outbound::cq_escape_of(pieces_of(words, max)[i]),
            ),
    ensures
        outbound::bare_of(outbound::flat_of(unescaped)) == outbound::bare_of(words),
{
    let parts = pieces_of(words, max);
    assert forall|i: int| 0 <= i < parts.len() implies unescaped[i] == parts[i] by {
        outbound::law_escape_lossless(parts[i]);
    }
    assert(unescaped =~= parts);
    outbound::law_segment_keeps_text(words, max);
    assert(parts.len() == 0 ==> outbound::flat_of(parts).len() == 0);
}

/// A reply goes back to where the message came from: to a private message by a private
/// message to its sender, whatever group it names, and to a message of a group by one to
/// that group; and it says what is sent, escaped.
pub proof fn law_reply_goes_back(kind: MsgKind, group_id: Option<i64>, user_id: i64, chunk: Seq<char>)
    ensures
        ({
            let c = call_for(kind, group_id, user_id, chunk);
            &&& c.params.len() == 2
            &&& c.params.contains(("message"@, PartView::Text(outbound::cq_escape_of(chunk))))
            &&& kind == MsgKind::Private ==> c.action == "send_private_msg"@ && c.params.contains(
                ("user_id"@, PartView::Int(user_id)),
            )
            &&& kind == MsgKind::Group ==> c.action == "send_group_msg"@ && (group_id matches Some(g)
                ==> c.params.contains(("group_id"@, PartView::Int(g))))
        }),
{
    let t = outbound::cq_escape_of(chunk);
    napcat::law_messages_are_addressed(user_id, t);
    if let Some(g) = group_id {
        napcat::law_messages_are_addressed(g, t);
    }
    napcat::law_messages_are_addressed(0, t);
}

/// All of a reply is sent, in its order, unless it has no words at all.
pub proof fn law_all_pieces_are_sent(words: Seq<char>, max: int)
    ensures
        outbound::bare_of(words).len() > 0 ==> pieces_of(words, max) == outbound::segment_of(words, max),
        outbound::bare_of(words).len() == 0 ==> pieces_of(words, max).len() == 0,
{
}

/// A message that is neither the bot's own, nor hidden, nor held back, nor a command is
/// answered by how it concerns the bot: called, where it is meant for it; else named, in a
/// group, where it names it; else left to chance, in a group, with what it says.
pub proof fn law_messages_go_by_their_concern(
    cfg: Config,
    prefixes: Seq<char>,
    msg: napcat::ParsedMsgView,
    session_paused: bool,
)
    requires
        !msg.is_self,
        !crate::trigger::is_ignored(prefixes, msg.text),
        !session_paused || is_pause_control(msg.text),
        !is_command(msg.text),
    ensures
        ({
            let r = route_of(cfg, prefixes, msg, false, session_paused);
            let meant = crate::trigger::is_passive_hit(cfg, msg.kind, msg.text, msg.at_me, msg.reply_me);
            let named = msg.kind == MsgKind::Group && crate::trigger::is_soft_at(cfg, msg.text);
            let words = crate::trigger::strip_keyword_of(msg.text, cfg.napcat.keyword@);
            &&& r is Called <==> meant
            &&& r matches RouteView::Called(h) ==> h == hint_of(msg.kind, msg.at_me, msg.reply_me)
            &&& r is Named <==> !meant && named
            &&& r is Chance <==> !meant && !named && msg.kind == MsgKind::Group && words.len() > 0
            &&& r matches RouteView::Chance(w) ==> w == words
            &&& !(r is Own) && !(r is Ignored) && !(r is Paused) && !(r is Command)
        }),
{
}

/// A message that begins with a prefix of the list is not looked at, even as a command.
pub proof fn law_hidden_messages_are_ignored(
    cfg: Config,
    prefixes: Seq<char>,
    msg: napcat::ParsedMsgView,
    all_paused: bool,
    session_paused: bool,
)
    requires
        !msg.is_self,
        crate::trigger::is_ignored(prefixes, msg.text),
    ensures
        route_of(cfg, prefixes, msg, all_paused, session_paused) == RouteView::Ignored,
        steps_of(RouteView::Ignored, true, true).next == Then::Note,
{
}

/// How a message concerns the bot is told as it is: a call before a quotation, that before
/// a private message, and that before a trigger word; in the timeline a private message
/// is one before all.
pub proof fn law_concern_is_told(kind: MsgKind, at_me: bool, reply_me: bool)
    ensures
        at_me ==> hint_of(kind, at_me, reply_me) == "对方 @ 了你"@,
        !at_me && reply_me ==> hint_of(kind, at_me, reply_me) == "对方引用回复了你的消息"@,
        !at_me && !reply_me && kind == MsgKind::Private ==> hint_of(kind, at_me, reply_me) == "这是发给你的私聊消息"@,
        !at_me && !reply_me && kind == MsgKind::Group ==> hint_of(kind, at_me, reply_me) == "消息包含触发关键词"@,
        kind == MsgKind::Private ==> label_of(kind, at_me, reply_me) == "private"@,
        kind == MsgKind::Group && at_me ==> label_of(kind, at_me, reply_me) == "at"@,
        kind == MsgKind::Group && !at_me && reply_me ==> label_of(kind, at_me, reply_me) == "reply"@,
        kind == MsgKind::Group && !at_me && !reply_me ==> label_of(kind, at_me, reply_me) == "keyword"@,
{
}

/// An answer is given in the session where the bot is meant or named, or where a chance
/// that was taken is to have the whole context; in passing otherwise. What is answered in
/// passing or not at all is noted among what was said, unless it was held back.
pub proof fn law_answers_have_their_place(r: RouteView, yes: bool, full_context: bool)
    ensures
        ({
            let s = steps_of(r, yes, full_context);
            &&& s.next == Then::Light <==> r is Chance && yes && !full_context
            &&& s.next == Then::Dialogue <==> r is Command || ((r is Called || r is Named) && yes) || (r is Chance && yes
                && full_context)
            &&& s.trail <==> r is Passed || (r is Chance && yes && !full_context)
            &&& s.mark <==> (r is Named && yes) || (r is Chance && !yes)
        }),
{
}

/// What the model is asked about is the message, and how it concerns the bot.
pub proof fn law_doubts_are_about_the_message(r: RouteView, words: Seq<char>)
    ensures
        doubt_of(r, words) is Some <==> r is Called || r is Named || r is Chance,
        r matches RouteView::Called(h) ==> doubt_of(r, words) == Some((words, h)),
        match doubt_of(r, words) {
            Some((w, _)) => (r is Named ==> w == words) && (r matches RouteView::Chance(c) ==> w == c),
            None => true,
        },
        sampled_of(r, true) == r,
        !(r is Chance) ==> sampled_of(r, false) == r,
        r is Chance ==> sampled_of(r, false) is Passed,
{
}

/// The model's word is taken; where it could not be had an answer is due, and in a pause
/// none is.
pub proof fn law_verdict_is_the_models(yes: bool, why: String)
    ensures
        verdict_of(Decision::Said(yes)) == yes,
        verdict_of(Decision::Failed(why)),
        !verdict_of(Decision::Cancelled),
        note_of(RouteView::Ignored) != note_of(RouteView::Paused),
        note_of(RouteView::Ignored) == "ignored"@,
        note_of(RouteView::Paused) == "paused"@,
        note_of(RouteView::Passed) == "untriggered"@,
        note_of(RouteView::Named) == "decided_no"@,
{
    reveal_strlit("ignored");
    reveal_strlit("paused");
    assert("ignored"@.len() == 7 && "paused"@.len() == 6);
}

/// What is asked is what was said, without the trigger word in front; only where nothing is
/// left does a word on that take its place.
pub proof fn law_question_is_what_was_said(words: Seq<char>, keyword: Seq<char>, at_me: bool, reply_me: bool)
    ensures
        ({
            let t = crate::trigger::strip_keyword_of(words, keyword);
            &&& t.len() > 0 ==> question_of(words, keyword, at_me, reply_me) == t
            &&& t.len() == 0 && (at_me || reply_me) ==> question_of(words, keyword, at_me, reply_me)
                == "(对方 @/引用了你,但没有附带文本内容)"@
            &&& t.len() == 0 && !at_me && !reply_me ==> question_of(words, keyword, at_me, reply_me)
                == "(对方发出了触发词,但没有附带文本内容)"@
        }),
{
}

/// How an answer ends is what it was: a reply is the reply, a stop by the user is told
/// only where the user was asked to wait, and a failure is told as it is; an empty first
/// answer is asked for again.
pub proof fn law_ending_is_what_it_was(e: Ending, result: Result<LlmReply, String>, retried: bool, hint_sent: bool)
    requires
        is_ending(e, result, retried, hint_sent),
    ensures
        result matches Ok(reply) ==> e == Ending::Reply(reply),
        result matches Err(why) ==> {
            &&& !(e is Reply)
            &&& why@ == "用户已停止本次回复"@ ==> e == Ending::Stopped { tell: hint_sent }
            &&& why@ != "用户已停止本次回复"@ && retried ==> e == Ending::Failed(why)
            &&& !retried && why@ == "模型返回空内容"@ ==> e is Retry
        },
{
    reveal_strlit("模型返回空内容");
    reveal_strlit("用户已停止本次回复");
    if let Err(why) = result {
        assert("模型返回空内容"@.take(7) =~= "模型返回空内容"@);
        if why@ == "用户已停止本次回复"@ {
            if text::begins(why@, "模型返回空内容"@) {
                assert(why@.take(7)[0] == "模型返回空内容"@[0]);
            }
        }
    }
}

/// A wish to remember adds just that, as the model's, behind what is remembered; one that
/// is empty or known already changes nothing.
pub proof fn law_wish_to_remember(items: Seq<MemoryEntryView>, t: Seq<char>, max_entries: int, max_chars: int, now: i64)
    requires
        max_entries >= 1,
        items.len() < max_entries,
        text::trim_of(t).len() <= max_chars,
    ensures
        ({
            let c = text::trim_of(t);
            let after = op_applied(items, MemoryOpView::Add(t), max_entries, max_chars, now);
            &&& c.len() > 0 && !memory::remembers(items, c) ==> after == items.push(
                MemoryEntryView { ts: now, source: "model"@, text: c },
            ) && op_changes(items, MemoryOpView::Add(t))
            &&& c.len() == 0 || memory::remembers(items, c) ==> after == items && !op_changes(
                items,
                MemoryOpView::Add(t),
            )
        }),
{
    let c = text::trim_of(t);
    memory::law_memory_appends(
        items,
        MemoryEntryView { ts: now, source: "model"@, text: c },
        max_entries,
        max_chars,
    );
    if c.len() > 0 && !memory::remembers(items, c) {
        let after = op_applied(items, MemoryOpView::Add(t), max_entries, max_chars, now);
        assert(after =~= items.push(MemoryEntryView { ts: now, source: "model"@, text: c }));
    }
}

/// A wish to forget takes out every entry that has the words in it, and no other.
pub proof fn law_wish_to_forget(items: Seq<MemoryEntryView>, needle: Seq<char>, max_entries: int, max_chars: int, now: i64)
    requires
        text::trim_of(needle).len() > 0,
    ensures
        ({
            let after = op_applied(items, MemoryOpView::Remove(needle), max_entries, max_chars, now);
            &&& forall|i: int|
                0 <= i < after.len() ==> items.contains(#[trigger] after[i]) && !text::includes(
                    after[i].text,
                    text::trim_of(needle),
                )
            &&& forall|i: int|
                0 <= i < items.len() && !text::includes(
                    (#[trigger] items[i]).text,
                    text::trim_of(needle),
                ) ==> after.contains(items[i])
            &&& after.len() <= items.len()
        }),
{
    let c = text::trim_of(needle);
    let keep = |e: MemoryEntryView| !text::includes(e.text, c);
    let after = op_applied(items, MemoryOpView::Remove(needle), max_entries, max_chars, now);
    assert(after == items.filter(keep));
    broadcast use vstd::seq_lib::group_filter_ensures;

    crate::lists::lemma_filter_from(items, keep);
    assert forall|i: int| 0 <= i < after.len() implies items.contains(#[trigger] after[i]) && !text::includes(
        after[i].text,
        c,
    ) by {
        assert(keep(items.filter(keep)[i]));
    }
    assert forall|i: int|
        0 <= i < items.len() && !text::includes((#[trigger] items[i]).text, c) implies after.contains(
        items[i],
    ) by {
        assert(keep(items[i]));
    }
}

/// Wishes are carried out one after the other.
pub proof fn law_wishes_come_in_turn(
    items: Seq<MemoryEntryView>,
    ops: Seq<MemoryOpView>,
    op: MemoryOpView,
    max_entries: int,
    max_chars: int,
    now: i64,
)
    ensures
        ops_applied(items, Seq::<MemoryOpView>::empty(), max_entries, max_chars, now) == items,
        ops_applied(items, ops.push(op), max_entries, max_chars, now) == op_applied(
            ops_applied(items, ops, max_entries, max_chars, now),
            op,
            max_entries,
            max_chars,
            now,
        ),
        !ops_change(items, Seq::<MemoryOpView>::empty(), max_entries, max_chars, now),
{
    assert(ops.push(op).drop_last() =~= ops);
}

/// The user is asked to wait once thoughts alone have taken the delay since the first
/// piece, or once nothing has come for twice the delay and a quarter of a minute; a piece
/// is taken note of as what it is, the first with its moment.
pub proof fn law_hint_comes_in_time(w: StreamWatch, delay_secs: u64, started: i128, now: i128, content: bool)
    ensures
        !w.hint_sent && w.first_at is Some && !w.got_content ==> (wants_hint(w, true, delay_secs, started, now)
            <==> now - w.first_at->0 >= delay_secs * 1_000_000_000),
        !w.hint_sent && w.first_at is None ==> (wants_hint(w, true, delay_secs, started, now) <==> now - started >= (
        delay_secs + delay_secs + 15) * 1_000_000_000),
        w.first_at is None ==> piece_seen(w, content, now).first_at == Some(now),
        w.first_at is Some ==> piece_seen(w, content, now).first_at == w.first_at,
        piece_seen(w, content, now).got_content <==> w.got_content || content,
        piece_seen(w, content, now).hint_sent == w.hint_sent,
        unwatched().first_at is None && !unwatched().hint_sent && !unwatched().got_content,
{
}

/// The two commands about the pause get through a paused session, with white space around
/// them or behind a quotation, and nothing else does.
pub proof fn law_pause_commands_get_through(words: Seq<char>)
    ensures
        crate::trigger::strip_quote_of(text::trim_of(words)) == "/pause"@ ==> is_pause_control(words),
        crate::trigger::strip_quote_of(text::trim_of(words)) == "/resume"@ ==> is_pause_control(words),
        is_pause_control(words) ==> crate::trigger::strip_quote_of(text::trim_of(words)) == "/pause"@
            || crate::trigger::strip_quote_of(text::trim_of(words)) == "/resume"@,
{
}

/// A message that is passed over is put down as it came, at its moment and under its turn,
/// with what it was passed over for.
pub proof fn law_passed_over_is_put_down(e: TraceEvent, turn: Seq<char>, ts: i64, heading: Seq<char>, words: Seq<char>)
    requires
        is_note(e, turn, ts, heading, words),
    ensures
        match e {
            TraceEvent::MsgIn { id: _, turn: t, ts: s, trigger, text, ignored } => {
                &&& t@ == turn
                &&& s == ts
                &&& trigger@ == heading
                &&& text@ == words
                &&& ignored
            },
            _ => false,
        },
{
}

/// A question to the model leaves a trace: what was asked about and what it said, or why it
/// said nothing.
pub proof fn law_verdict_is_put_down(
    e: TraceEvent,
    d: Decision,
    turn: Seq<char>,
    ts: i64,
    words: Seq<char>,
    model: Seq<char>,
    ms: u64,
)
    requires
        is_decision_entry(e, d, turn, ts, words, model, ms),
    ensures
        match (d, e) {
            (Decision::Said(yes), TraceEvent::Decide { turn: t, ts: s, text, verdict, model: m, ms: x }) => verdict == yes
                && text@ == words && t@ == turn && s == ts && m@ == model && x == ms,
            (Decision::Cancelled, TraceEvent::Error { turn: t, ts: s, text: _ }) => t@ == turn && s == ts,
            (Decision::Failed(why), TraceEvent::Error { turn: t, ts: s, text }) => t@ == turn && s == ts && text::ends(
                text@,
                why@,
            ),
            _ => false,
        },
{
    match (d, e) {
        (Decision::Failed(why), TraceEvent::Error { turn: t, ts: s, text }) => {
            assert(text@.skip(text@.len() - why@.len()) =~= why@);
        },
        _ => {},
    }
}

/// Wishes change something where the first that does is among them: one more wish changes
/// something after those before it have been carried out, and what has changed stays so.
pub proof fn law_change_is_told(
    items: Seq<MemoryEntryView>,
    ops: Seq<MemoryOpView>,
    op: MemoryOpView,
    max_entries: int,
    max_chars: int,
    now: i64,
)
    ensures
        ops_change(items, ops, max_entries, max_chars, now) ==> ops_change(
            items,
            ops.push(op),
            max_entries,
            max_chars,
            now,
        ),
        !ops_change(items, ops, max_entries, max_chars, now) ==> (ops_change(
            items,
            ops.push(op),
            max_entries,
            max_chars,
            now,
        ) <==> op_changes(ops_applied(items, ops, max_entries, max_chars, now), op)),
{
    assert(ops.push(op).drop_last() =~= ops);
}

} // verus!
