//! One turn of a conversation, step by step.
//!
//! A turn begins when a message is to be answered in its session. What happened is
//! handed in as an event; what is to be done next comes out as an action. The order is
//! fixed here: commands before the model, the question recorded before the model is
//! called, one more call at most after an empty reply, and what waits in the session
//! taken up at the end.

use vstd::prelude::*;
use vstd::string::*;
use crate::agent::tools;
use crate::agent::AgentMode;
use crate::chat;
use crate::chat::Ending;
use crate::config::Config;
use crate::llm;
use crate::llm::{LlmReply, LlmReplyView};
use crate::memory;
use crate::memory::{MemoryOp, MemoryOpView};
use crate::napcat::{MsgKind, ParsedMsg};
use crate::text;

verus! {

/// How far a turn has come.
#[derive(Debug, Clone, Copy, PartialEq, Eq, Structural)]
pub enum Stage {
    Start,
    /// A command may be under way.
    Commanded,
    /// The context is being brought within its budget.
    Trimming,
    /// The model is answering.
    Asking,
    /// The model is answering for the second time.
    AskingAgain,
    Over,
}

/// What happened.
pub enum Event {
    /// The session was looked at.
    Begun { busy: bool },
    /// The text was tried as a command; the reply where it was one.
    Tried(Option<String>),
    /// The context is within its budget; whether there is a model.
    Trimmed { has_model: bool },
    /// The model has answered, or has not; whether the user was asked to wait.
    Answered { result: Result<LlmReply, String>, hint_sent: bool },
}

/// What is to be done.
pub enum Action {
    /// The message has to wait; the turn is over.
    Queue,
    /// Try this as a command.
    Try(String),
    /// Note the command and its reply, then take up what waits.
    NoteCommand { cmd: String, reply: String },
    /// Bring the context within its budget for this question.
    Trim(String),
    /// Record this question under this heading, then call the model.
    Ask { question: String, heading: String },
    /// Call the model once more, without thinking.
    AskAgain,
    /// Send and record this reply, carry out what it asks of the memory, start the tasks
    /// it asks for, then take up what waits.
    Reply { out: String, ops: Vec<MemoryOp>, tasks: Vec<(AgentMode, String)>, reply: LlmReply },
    /// Note this failure, tell the user where there is something to be told, then take
    /// up what waits.
    Fail { note: String, tell: Option<String> },
    /// Take up what waits.
    Drain,
    /// Nothing; the event does not belong here.
    Nothing,
}

pub enum ActionView {
    Queue,
    Try(Seq<char>),
    NoteCommand { cmd: Seq<char>, reply: Seq<char> },
    Trim(Seq<char>),
    Ask { question: Seq<char>, heading: Seq<char> },
    AskAgain,
    Reply {
        out: Seq<char>,
        ops: Seq<MemoryOpView>,
        tasks: Seq<(AgentMode, Seq<char>)>,
        reply: LlmReplyView,
    },
    Fail { note: Seq<char>, tell: Option<Seq<char>> },
    Drain,
    Nothing,
}

impl View for Action {
    type V = ActionView;

    open spec fn view(&self) -> ActionView {
        match self {
            Action::Queue => ActionView::Queue,
            Action::Try(s) => ActionView::Try(s@),
            Action::NoteCommand { cmd, reply } => ActionView::NoteCommand { cmd: cmd@, reply: reply@ },
            Action::Trim(s) => ActionView::Trim(s@),
            Action::Ask { question, heading } => ActionView::Ask {
                question: question@,
                heading: heading@,
            },
            Action::AskAgain => ActionView::AskAgain,
            Action::Reply { out, ops, tasks, reply } => ActionView::Reply {
                out: out@,
                ops: memory::op_views(ops@),
                tasks: tools::mark_views(tasks@),
                reply: reply@,
            },
            Action::Fail { note, tell } => ActionView::Fail {
                note: note@,
                tell: text::opt_view(*tell),
            },
            Action::Drain => ActionView::Drain,
            Action::Nothing => ActionView::Nothing,
        }
    }
}

/// A turn: the message that it answers, and how far it has come.
pub struct Turn {
    pub stage: Stage,
    /// What the message says.
    pub words: String,
    pub keyword: String,
    pub kind: MsgKind,
    pub at_me: bool,
    pub reply_me: bool,
}

pub struct TurnView {
    pub stage: Stage,
    pub words: Seq<char>,
    pub keyword: Seq<char>,
    pub kind: MsgKind,
    pub at_me: bool,
    pub reply_me: bool,
}

impl View for Turn {
    type V = TurnView;

    open spec fn view(&self) -> TurnView {
        TurnView {
            stage: self.stage,
            words: self.words@,
            keyword: self.keyword@,
            kind: self.kind,
            at_me: self.at_me,
            reply_me: self.reply_me,
        }
    }
}

/// The text of the turn as a command or a question is read from it.
pub open spec fn gist_of(t: TurnView) -> Seq<char> {
    crate::trigger::strip_quote_of(text::trim_of(t.words))
}

/// What is asked in the turn.
pub open spec fn asked_of(t: TurnView) -> Seq<char> {
    chat::question_of(gist_of(t), t.keyword, t.at_me, t.reply_me)
}

pub open spec fn at(t: TurnView, stage: Stage) -> TurnView {
    TurnView { stage, ..t }
}

/// The model's answer taken up.
pub open spec fn answered(
    t: TurnView,
    result: Result<LlmReply, String>,
    hint_sent: bool,
) -> (TurnView, ActionView) {
    match result {
        Ok(reply) => (
            at(t, Stage::Over),
            ActionView::Reply {
                out: chat::outgoing_of(reply.text@),
                ops: memory::memory_ops_of(reply.text@).1,
                tasks: chat::tasks_of(reply.text@),
                reply: reply@,
            },
        ),
        Err(why) => if t.stage == Stage::Asking && text::begins(why@, "模型返回空内容"@) {
            (at(t, Stage::AskingAgain), ActionView::AskAgain)
        } else if why@ == "用户已停止本次回复"@ {
            (
                at(t, Stage::Over),
                ActionView::Fail {
                    note: "已停止"@,
                    tell: if hint_sent {
                        Some("⏹ 回复已停止。"@)
                    } else {
                        None
                    },
                },
            )
        } else {
            (
                at(t, Stage::Over),
                ActionView::Fail { note: why@, tell: Some("⚠️ 出错了: "@ + why@) },
            )
        },
    }
}

/// One step of a turn.
pub open spec fn turn_step(t: TurnView, ev: Event) -> (TurnView, ActionView) {
    match (t.stage, ev) {
        (Stage::Start, Event::Begun { busy }) => if busy {
            (at(t, Stage::Over), ActionView::Queue)
        } else if text::begins(gist_of(t), "/"@) {
            (at(t, Stage::Commanded), ActionView::Try(gist_of(t)))
        } else {
            (at(t, Stage::Trimming), ActionView::Trim(asked_of(t)))
        },
        (Stage::Commanded, Event::Tried(Some(reply))) => (
            at(t, Stage::Over),
            ActionView::NoteCommand { cmd: gist_of(t), reply: reply@ },
        ),
        (Stage::Commanded, Event::Tried(None)) => (
            at(t, Stage::Trimming),
            ActionView::Trim(asked_of(t)),
        ),
        (Stage::Trimming, Event::Trimmed { has_model }) => if has_model {
            (
                at(t, Stage::Asking),
                ActionView::Ask {
                    question: asked_of(t),
                    heading: chat::label_of(t.kind, t.at_me, t.reply_me),
                },
            )
        } else {
            (at(t, Stage::Over), ActionView::Drain)
        },
        (Stage::Asking, Event::Answered { result, hint_sent }) => answered(t, result, hint_sent),
        (Stage::AskingAgain, Event::Answered { result, hint_sent }) => answered(t, result, hint_sent),
        _ => (t, ActionView::Nothing),
    }
}

impl Turn {
    /// A turn that answers a message.
    pub fn new(cfg: &Config, msg: &ParsedMsg) -> (r: Turn)
        ensures
            r@ == (TurnView {
                stage: Stage::Start,
                words: msg.text@,
                keyword: cfg.napcat.keyword@,
                kind: msg.kind,
                at_me: msg.at_me,
                reply_me: msg.reply_me,
            }),
    {
        Turn {
            stage: Stage::Start,
            words: msg.text.clone(),
            keyword: cfg.napcat.keyword.clone(),
            kind: msg.kind,
            at_me: msg.at_me,
            reply_me: msg.reply_me,
        }
    }

    fn gist(&self) -> (r: &str)
        ensures
            r@ == gist_of(self@),
    {
        crate::trigger::strip_quote_prefix(text::trim(self.words.as_str()))
    }

    fn asked(&self) -> (r: String)
        ensures
            r@ == asked_of(self@),
    {
        chat::question(self.gist(), self.keyword.as_str(), self.at_me, self.reply_me)
    }

    fn on_answer(&mut self, result: Result<LlmReply, String>, hint_sent: bool) -> (r: Action)
        requires
            old(self).stage == Stage::Asking || old(self).stage == Stage::AskingAgain,
        ensures
            (final(self)@, r@) == answered(old(self)@, result, hint_sent),
    {
        let again = self.stage == Stage::AskingAgain;
        match chat::conclude(result, again, hint_sent) {
            Ending::Retry => {
                self.stage = Stage::AskingAgain;
                Action::AskAgain
            },
            Ending::Reply(reply) => {
                self.stage = Stage::Over;
                let (out, ops, tasks) = chat::digest_reply(reply.text.as_str());
                Action::Reply { out, ops, tasks, reply }
            },
            Ending::Stopped { tell } => {
                self.stage = Stage::Over;
                let word = if tell {
                    Some(chat::stopped_text().to_owned())
                } else {
                    None
                };
                Action::Fail { note: "已停止".to_owned(), tell: word }
            },
            Ending::Failed(why) => {
                self.stage = Stage::Over;
                let tell = chat::failure_text(why.as_str());
                Action::Fail { note: why, tell: Some(tell) }
            },
        }
    }

    /// Takes a step: what happened comes in, what is to be done goes out.
    pub fn step(&mut self, ev: Event) -> (r: Action)
        ensures
            (final(self)@, r@) == turn_step(old(self)@, ev),
    {
        match (self.stage, ev) {
            (Stage::Start, Event::Begun { busy }) => {
                if busy {
                    self.stage = Stage::Over;
                    return Action::Queue;
                }
                if text::starts_with(self.gist(), "/") {
                    let cmd = self.gist().to_owned();
                    self.stage = Stage::Commanded;
                    return Action::Try(cmd);
                }
                let q = self.asked();
                self.stage = Stage::Trimming;
                Action::Trim(q)
            },
            (Stage::Commanded, Event::Tried(Some(reply))) => {
                let cmd = self.gist().to_owned();
                self.stage = Stage::Over;
                Action::NoteCommand { cmd, reply }
            },
            (Stage::Commanded, Event::Tried(None)) => {
                let q = self.asked();
                self.stage = Stage::Trimming;
                Action::Trim(q)
            },
            (Stage::Trimming, Event::Trimmed { has_model }) => {
                if !has_model {
                    self.stage = Stage::Over;
                    return Action::Drain;
                }
                let question = self.asked();
                let heading = if self.kind == MsgKind::Private {
                    "private"
                } else if self.at_me {
                    "at"
                } else if self.reply_me {
                    "reply"
                } else {
                    "keyword"
                };
                self.stage = Stage::Asking;
                Action::Ask { question, heading: heading.to_owned() }
            },
            (Stage::Asking, Event::Answered { result, hint_sent }) => self.on_answer(result, hint_sent),
            (Stage::AskingAgain, Event::Answered { result, hint_sent }) => self.on_answer(
                result,
                hint_sent,
            ),
            _ => Action::Nothing,
        }
    }
}

// ---------- laws ----------

/// How far a turn is from its end, in calls of the model.
pub open spec fn calls_left(s: Stage) -> int {
    match s {
        Stage::Over => 0,
        Stage::AskingAgain => 0,
        Stage::Asking => 1,
        _ => 2,
    }
}

/// A turn calls the model twice at most: every call uses up one that is left, and no
/// other step gives one back.
pub proof fn law_two_calls_at_most(t: TurnView, ev: Event)
    ensures
        ({
            let (after, action) = turn_step(t, ev);
            &&& calls_left(after.stage) <= calls_left(t.stage)
            &&& action is Ask || action is AskAgain ==> calls_left(after.stage) == calls_left(t.stage)
                - 1
        }),
{
}

/// A first answer that is empty, whole or in pieces, is asked for again.
pub proof fn law_empty_answer_is_tried_again(t: TurnView, why: String, raw: Seq<char>, hint_sent: bool)
    requires
        t.stage == Stage::Asking,
        why@ == "模型返回空内容"@ || why@ == llm::empty_reply_error(raw),
    ensures
        turn_step(t, Event::Answered { result: Err(why), hint_sent }).1 is AskAgain,
{
    reveal_strlit("模型返回空内容");
    reveal_strlit("模型返回空内容: ");
    assert(why@.take("模型返回空内容"@.len() as int) =~= "模型返回空内容"@);
}

/// The question is recorded before the model is called: a second call comes only after
/// a first, and the first is the step that records the question.
pub proof fn law_question_is_recorded_first(t: TurnView, ev: Event)
    ensures
        turn_step(t, ev).0.stage == Stage::Asking && t.stage != Stage::Asking ==> turn_step(t, ev).1 is Ask,
        turn_step(t, ev).1 is AskAgain ==> t.stage == Stage::Asking,
        turn_step(t, ev).1 is Reply ==> t.stage == Stage::Asking || t.stage == Stage::AskingAgain,
{
}

/// A turn that ends takes up what waits, unless its own message has to wait; and a turn
/// that is over stays so.
pub proof fn law_every_end_drains(t: TurnView, ev: Event)
    ensures
        turn_step(t, ev).0.stage == Stage::Over && t.stage != Stage::Over ==> {
            let a = turn_step(t, ev).1;
            a is Queue || a is NoteCommand || a is Reply || a is Fail || a is Drain
        },
        t.stage == Stage::Over ==> turn_step(t, ev) == (t, ActionView::Nothing),
{
}

/// A command that was carried out never reaches the model.
pub proof fn law_commands_stay_away_from_the_model(t: TurnView, reply: String)
    requires
        t.stage == Stage::Commanded,
    ensures
        turn_step(t, Event::Tried(Some(reply))).0.stage == Stage::Over,
        turn_step(t, Event::Tried(Some(reply))).1 == (ActionView::NoteCommand {
            cmd: gist_of(t),
            reply: reply@,
        }),
{
}

/// What a turn does is about its message: a command is tried as it was written, behind a
/// quotation, and anything else is asked as what it says; the question asked is the one
/// that the context was made for.
pub proof fn law_turn_is_about_its_message(t: TurnView, has_model: bool)
    ensures
        t.stage == Stage::Start ==> {
            let begun = turn_step(t, Event::Begun { busy: false });
            let gist = crate::trigger::strip_quote_of(text::trim_of(t.words));
            let asked = chat::question_of(gist, t.keyword, t.at_me, t.reply_me);
            &&& begun.1 == ActionView::Try(gist) <==> text::begins(gist, "/"@)
            &&& begun.1 == ActionView::Trim(asked) <==> !text::begins(gist, "/"@)
            &&& turn_step(t, Event::Begun { busy: true }).1 is Queue
            &&& turn_step(at(t, Stage::Trimming), Event::Trimmed { has_model: true }).1 == (ActionView::Ask {
                question: asked,
                heading: chat::label_of(t.kind, t.at_me, t.reply_me),
            })
            &&& turn_step(at(t, Stage::Trimming), Event::Trimmed { has_model: false }).1 is Drain
            &&& turn_step(at(t, Stage::Commanded), Event::Tried(None)).1 == ActionView::Trim(asked)
        },
        at(t, Stage::Over).words == t.words && at(t, Stage::Over).kind == t.kind,
{
}

/// A reply of the model is sent, with its wishes and tasks, and the turn is over; a failure
/// is noted and told as it is, and a stop by the user only where there is something to
/// take back.
pub proof fn law_answer_is_passed_on(t: TurnView, reply: LlmReply, why: String, hint_sent: bool)
    requires
        t.stage == Stage::Asking || t.stage == Stage::AskingAgain,
    ensures
        turn_step(t, Event::Answered { result: Ok(reply), hint_sent }).1 == (ActionView::Reply {
            out: chat::outgoing_of(reply.text@),
            ops: memory::memory_ops_of(reply.text@).1,
            tasks: chat::tasks_of(reply.text@),
            reply: reply@,
        }),
        turn_step(t, Event::Answered { result: Ok(reply), hint_sent }).0.stage == Stage::Over,
        t.stage == Stage::AskingAgain && why@ != "用户已停止本次回复"@ ==> turn_step(
            t,
            Event::Answered { result: Err(why), hint_sent },
        ).1 == (ActionView::Fail { note: why@, tell: Some("⚠️ 出错了: "@ + why@) }),
        t.stage == Stage::AskingAgain && why@ == "用户已停止本次回复"@ ==> match turn_step(
            t,
            Event::Answered { result: Err(why), hint_sent },
        ).1 {
            ActionView::Fail { note, tell } => note == "已停止"@ && (tell is Some <==> hint_sent),
            _ => false,
        },
{
}

} // verus!
