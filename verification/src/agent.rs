//! Tasks handed to a helper.
//!
//! A task is set up by a mark in a reply or by hand. The helper first chooses tools,
//! then uses them one at a time. Every use of a tool waits for the user's approval. A
//! task can be paused, taken up again and stopped; what it leaves is a short summary.
//!
//! This module holds the states of a task and what moves it from one to the next.
//! Calling the model, performing actions and waiting are left to the application.

use vstd::prelude::*;
use vstd::string::*;
use crate::agent::tools::StepOutput;
use crate::config::{AgentConfig, SandboxConfig};
use crate::json;
use crate::json::{Json, JsonView, Part, PartView};
use crate::llm;
use crate::llm::{ApiMessage, ApiMessageView};
use crate::napcat::{ActionCall, ActionCallView, MsgKind};
use crate::number;
use crate::sandbox;
use crate::sandbox::Backend;
use crate::text;

pub mod plans;
pub mod tools;

verus! {

// ---------- modes, states, tasks ----------

#[derive(Debug, Clone, Copy, PartialEq, Eq, Structural)]
pub enum AgentMode {
    QqOps,
    Sandbox,
}

impl AgentMode {
    pub open spec fn label_of(self) -> Seq<char> {
        match self {
            AgentMode::QqOps => "QQ 操作"@,
            AgentMode::Sandbox => "沙箱"@,
        }
    }

    pub fn label(&self) -> (r: &'static str)
        ensures
            r@ == self.label_of(),
    {
        match self {
            AgentMode::QqOps => "QQ 操作",
            AgentMode::Sandbox => "沙箱",
        }
    }
}

#[derive(Debug, Clone, Copy, PartialEq, Eq, Structural)]
pub enum TaskStatus {
    SandboxSetup,
    SandboxActivate,
    /// Tools are being chosen.
    Selecting,
    AwaitingApproval,
    Executing,
    /// By the user, or because an approval took too long.
    Paused,
    Done,
    Failed,
    /// By the user.
    Stopped,
}

impl TaskStatus {
    pub open spec fn label_of(self) -> Seq<char> {
        match self {
            TaskStatus::SandboxSetup => "沙箱搭建中"@,
            TaskStatus::SandboxActivate => "沙箱激活中"@,
            TaskStatus::Selecting => "工具选择中"@,
            TaskStatus::AwaitingApproval => "等待审批"@,
            TaskStatus::Executing => "执行中"@,
            TaskStatus::Paused => "已暂停"@,
            TaskStatus::Done => "已完成"@,
            TaskStatus::Failed => "失败"@,
            TaskStatus::Stopped => "已停止"@,
        }
    }

    pub fn label(&self) -> (r: &'static str)
        ensures
            r@ == self.label_of(),
    {
        match self {
            TaskStatus::SandboxSetup => "沙箱搭建中",
            TaskStatus::SandboxActivate => "沙箱激活中",
            TaskStatus::Selecting => "工具选择中",
            TaskStatus::AwaitingApproval => "等待审批",
            TaskStatus::Executing => "执行中",
            TaskStatus::Paused => "已暂停",
            TaskStatus::Done => "已完成",
            TaskStatus::Failed => "失败",
            TaskStatus::Stopped => "已停止",
        }
    }

    pub open spec fn is_terminal(self) -> bool {
        self == TaskStatus::Done || self == TaskStatus::Failed || self == TaskStatus::Stopped
    }

    /// Whether the task is over.
    pub fn terminal(&self) -> (r: bool)
        ensures
            r == self.is_terminal(),
    {
        matches!(self, TaskStatus::Done | TaskStatus::Failed | TaskStatus::Stopped)
    }
}

/// Where a task comes from, and what its sender may do.
pub struct OriginInfo {
    pub kind: MsgKind,
    pub group_id: Option<i64>,
    pub user_id: i64,
    /// The session that the result goes back to.
    pub session_key: String,
    /// `owner`, `admin`, `member`, `trusted` or `private`.
    pub requester_role: String,
}

pub struct OriginView {
    pub kind: MsgKind,
    pub group_id: Option<i64>,
    pub user_id: i64,
    pub session_key: Seq<char>,
    pub role: Seq<char>,
}

impl View for OriginInfo {
    type V = OriginView;

    open spec fn view(&self) -> OriginView {
        OriginView {
            kind: self.kind,
            group_id: self.group_id,
            user_id: self.user_id,
            session_key: self.session_key@,
            role: self.requester_role@,
        }
    }
}

impl OriginInfo {
    pub fn with_role(self, role: String) -> (r: OriginInfo)
        ensures
            r@ == (OriginView { role: role@, ..self@ }),
    {
        OriginInfo {
            kind: self.kind,
            group_id: self.group_id,
            user_id: self.user_id,
            session_key: self.session_key,
            requester_role: role,
        }
    }
}

/// A step that waits for approval.
pub struct PendingStep {
    pub step_id: String,
    pub tool: String,
    pub params: Json,
    pub note: String,
    pub sensitive: bool,
    /// What the user is told of the risk.
    pub permission: String,
}

pub struct PendingView {
    pub step_id: Seq<char>,
    pub tool: Seq<char>,
    pub params: JsonView,
    pub note: Seq<char>,
    pub sensitive: bool,
    pub permission: Seq<char>,
}

impl View for PendingStep {
    type V = PendingView;

    open spec fn view(&self) -> PendingView {
        PendingView {
            step_id: self.step_id@,
            tool: self.tool@,
            params: self.params@,
            note: self.note@,
            sensitive: self.sensitive,
            permission: self.permission@,
        }
    }
}

pub open spec fn pending_view(p: Option<PendingStep>) -> Option<PendingView> {
    match p {
        Some(s) => Some(s@),
        None => None,
    }
}

/// A step that was taken.
pub struct StepRecord {
    pub tool: String,
    pub params: Json,
    pub result: String,
    pub ok: bool,
    pub ts: i64,
}

pub struct StepView {
    pub tool: Seq<char>,
    pub params: JsonView,
    pub result: Seq<char>,
    pub ok: bool,
    pub ts: i64,
}

impl View for StepRecord {
    type V = StepView;

    open spec fn view(&self) -> StepView {
        StepView {
            tool: self.tool@,
            params: self.params@,
            result: self.result@,
            ok: self.ok,
            ts: self.ts,
        }
    }
}

pub struct AgentTask {
    pub id: String,
    pub mode: AgentMode,
    pub goal: String,
    pub origin: OriginInfo,
    pub status: TaskStatus,
    pub steps: Vec<StepRecord>,
    pub pending: Option<PendingStep>,
    pub summary: Option<String>,
    pub error: Option<String>,
    pub rounds: u32,
    pub max_rounds: u32,
    pub selected_tools: Vec<String>,
    pub sandbox_backend: String,
    pub created_ts: i64,
    pub finished_ts: Option<i64>,
    /// The conversation with the helper; it goes with the task.
    pub msgs: Vec<ApiMessage>,
    /// Somebody waits for the user's decision.
    pub approval_open: bool,
    pub backend: Option<Backend>,
}

pub struct TaskView {
    pub id: Seq<char>,
    pub mode: AgentMode,
    pub goal: Seq<char>,
    pub origin: OriginView,
    pub status: TaskStatus,
    pub steps: Seq<StepView>,
    pub pending: Option<PendingView>,
    pub summary: Option<Seq<char>>,
    pub error: Option<Seq<char>>,
    pub rounds: u32,
    pub max_rounds: u32,
    pub selected: Seq<Seq<char>>,
    pub sandbox_backend: Seq<char>,
    pub created_ts: i64,
    pub finished_ts: Option<i64>,
    pub msgs: Seq<ApiMessageView>,
    pub approval_open: bool,
    pub backend: Option<Backend>,
}

impl View for AgentTask {
    type V = TaskView;

    open spec fn view(&self) -> TaskView {
        TaskView {
            id: self.id@,
            mode: self.mode,
            goal: self.goal@,
            origin: self.origin@,
            status: self.status,
            steps: self.steps@.map_values(|s: StepRecord| s@),
            pending: pending_view(self.pending),
            summary: text::opt_view(self.summary),
            error: text::opt_view(self.error),
            rounds: self.rounds,
            max_rounds: self.max_rounds,
            selected: text::views(self.selected_tools@),
            sandbox_backend: self.sandbox_backend@,
            created_ts: self.created_ts,
            finished_ts: self.finished_ts,
            msgs: llm::msgs_view(self.msgs@),
            approval_open: self.approval_open,
            backend: self.backend,
        }
    }
}

pub open spec fn task_views(v: Seq<AgentTask>) -> Seq<TaskView> {
    v.map_values(|t: AgentTask| t@)
}

/// The user's word on a step.
#[derive(Debug, Clone, Copy, PartialEq, Eq, Structural)]
pub enum ApprovalDecision {
    Approved,
    Rejected,
}

/// What follows a phase.
#[derive(Debug, Clone, Copy, PartialEq, Eq, Structural)]
pub enum PhaseNext {
    Continue,
    Paused,
    Finish,
}

/// A call of the model.
pub enum Ask {
    Call { messages: Vec<ApiMessage>, max_tokens: u32 },
    /// A step waits for approval first.
    Approve,
    /// The task has come to its end.
    Finish,
}

pub enum AskView {
    Call { messages: Seq<ApiMessageView>, max_tokens: u32 },
    Approve,
    Finish,
}

impl View for Ask {
    type V = AskView;

    open spec fn view(&self) -> AskView {
        match self {
            Ask::Call { messages, max_tokens } => AskView::Call {
                messages: llm::msgs_view(messages@),
                max_tokens: *max_tokens,
            },
            Ask::Approve => AskView::Approve,
            Ask::Finish => AskView::Finish,
        }
    }
}

// ---------- the description of a task ----------

/// What a finished task comes to, for the main model: the goal, and the summary or what
/// became of it.
pub open spec fn result_of(t: TaskView) -> Seq<char> {
    t.goal + ": "@ + (match t.status {
        TaskStatus::Done => match t.summary {
            Some(s) => s,
            None => ""@,
        },
        TaskStatus::Failed => "失败: "@ + (match t.error {
            Some(e) => e,
            None => ""@,
        }),
        _ => t.status.label_of(),
    })
}

pub fn result_line(t: &AgentTask) -> (r: String)
    ensures
        r@ == result_of(t@),
{
    let mut s = t.goal.clone();
    s.append(": ");
    let ghost head = s@;
    match t.status {
        TaskStatus::Done => {
            match &t.summary {
                Some(w) => s.append(w.as_str()),
                None => s.append(""),
            }
        },
        TaskStatus::Failed => {
            s.append("失败: ");
            match &t.error {
                Some(e) => s.append(e.as_str()),
                None => s.append(""),
            }
        },
        _ => {
            s.append(t.status.label());
        },
    }
    assert(s@ =~= result_of(t@));
    s
}

/// The opening of the conversation with the helper.
pub open spec fn brief_of(
    mode: AgentMode,
    goal: Seq<char>,
    origin: OriginView,
    sandbox_backend: Seq<char>,
) -> Seq<char> {
    let head = "【任务目标】\n"@ + goal + "\n\n"@ + "【触发场景】来源: "@ + (match origin.kind {
        MsgKind::Group => "群 "@ + number::dec(
            match origin.group_id {
                Some(g) => g as int,
                None => 0,
            },
        ),
        MsgKind::Private => "私聊"@,
    }) + " 触发者 QQ: "@ + number::dec(origin.user_id as int) + "(角色:"@ + origin.role + ")"@;
    if mode == AgentMode::Sandbox {
        head + "\n【沙箱】后端: "@ + sandbox_backend
    } else {
        head
    }
}

pub fn build_task_brief(mode: AgentMode, goal: &str, origin: &OriginInfo, sandbox_backend: &str) -> (r:
    String)
    ensures
        r@ == brief_of(mode, goal@, origin@, sandbox_backend@),
{
    let place = match origin.kind {
        MsgKind::Group => {
            let mut p = "群 ".to_owned();
            let g: i64 = match origin.group_id {
                Some(g) => g,
                None => 0,
            };
            p.append(number::i64_text(g).as_str());
            p
        },
        MsgKind::Private => "私聊".to_owned(),
    };
    let mut s = "【任务目标】\n".to_owned();
    s.append(goal);
    s.append("\n\n");
    s.append("【触发场景】来源: ");
    s.append(place.as_str());
    s.append(" 触发者 QQ: ");
    s.append(number::i64_text(origin.user_id).as_str());
    s.append("(角色:");
    s.append(origin.requester_role.as_str());
    s.append(")");
    if mode == AgentMode::Sandbox {
        s.append("\n【沙箱】后端: ");
        s.append(sandbox_backend);
    }
    s
}

/// A list of messages behind a system text.
pub fn with_system(system: String, msgs: &Vec<ApiMessage>) -> (r: Vec<ApiMessage>)
    ensures
        llm::msgs_view(r@) == seq![llm::msg_of("system"@, system@)] + llm::msgs_view(msgs@),
{
    let mut r: Vec<ApiMessage> = Vec::new();
    r.push(llm::message("system", system));
    let ghost head = seq![llm::msg_of("system"@, system@)];
    let mut i: usize = 0;
    assert(llm::msgs_view(r@) =~= head + llm::msgs_view(msgs@).take(0));
    while i < msgs.len()
        invariant
            i <= msgs@.len(),
            llm::msgs_view(r@) == head + llm::msgs_view(msgs@).take(i as int),
        decreases msgs@.len() - i,
    {
        let ghost before = r@;
        r.push(msgs[i].clone());
        proof {
            assert(llm::msgs_view(r@) =~= llm::msgs_view(before).push(msgs@[i as int]@));
            assert(llm::msgs_view(r@) =~= head + llm::msgs_view(msgs@).take(i + 1));
        }
        i += 1;
    }
    assert(llm::msgs_view(msgs@).take(msgs@.len() as int) =~= llm::msgs_view(msgs@));
    r
}

pub open spec fn at_least(n: u32, least: u32) -> u32 {
    if n < least {
        least
    } else {
        n
    }
}

// ---------- what happens to a task ----------

pub open spec fn failed(t: TaskView, err: Seq<char>, now: i64) -> TaskView {
    TaskView {
        status: TaskStatus::Failed,
        error: Some(err),
        finished_ts: Some(now),
        approval_open: false,
        pending: None,
        ..t
    }
}

pub open spec fn finished(t: TaskView, summary: Seq<char>, now: i64) -> TaskView {
    TaskView {
        status: TaskStatus::Done,
        summary: Some(summary),
        finished_ts: Some(now),
        approval_open: false,
        pending: None,
        ..t
    }
}

/// The helper is told something and goes on.
pub open spec fn fed_back(t: TaskView, word: Seq<char>) -> TaskView {
    TaskView {
        msgs: t.msgs.push(llm::msg_of("user"@, word)),
        status: TaskStatus::Executing,
        ..t
    }
}

/// The helper learns the use of a tool that it did not choose.
pub open spec fn usage_appended(t: TaskView, tool: Seq<char>, usage: Seq<char>) -> TaskView {
    TaskView {
        msgs: if t.msgs.len() > 0 && t.msgs[0].role == "system"@ {
            t.msgs.update(
                0,
                llm::msg_of(
                    "system"@,
                    t.msgs[0].content + "\n【补充工具:"@ + tool + "】"@ + usage,
                ),
            )
        } else {
            t.msgs
        },
        selected: if t.selected.contains(tool) {
            t.selected
        } else {
            t.selected.push(tool)
        },
        ..t
    }
}

pub open spec fn stopped(t: TaskView, now: i64) -> TaskView {
    TaskView {
        status: TaskStatus::Stopped,
        finished_ts: Some(now),
        approval_open: false,
        pending: None,
        ..t
    }
}

/// The names that are tools of the mode, or those that are not.
pub open spec fn sorted_out(mode: AgentMode, names: Seq<Seq<char>>, known: bool) -> Seq<Seq<char>>
    decreases names.len(),
{
    if names.len() == 0 {
        Seq::<Seq<char>>::empty()
    } else if (tools::tool_of(mode, names.last()) is Some) == known {
        sorted_out(mode, names.drop_last(), known).push(names.last())
    } else {
        sorted_out(mode, names.drop_last(), known)
    }
}

pub open spec fn select_retry_word() -> Seq<char> {
    "上一次输出无法解析为 JSON,请严格只输出一个 JSON 对象: {\"tools\": [...], \"plan\": \"...\"}"@
}

/// The choice of tools taken up. No tool at all ends the task, with the plan as its
/// reason; only unknown ones make it fail; unknown ones beside known ones are dropped.
pub open spec fn selected(
    t: TaskView,
    choice: Result<(Seq<Seq<char>>, Seq<char>), Seq<char>>,
    now: i64,
) -> (TaskView, PhaseNext) {
    match choice {
        Err(_) => (
            TaskView { msgs: t.msgs.push(llm::msg_of("user"@, select_retry_word())), ..t },
            PhaseNext::Continue,
        ),
        Ok((names, plan)) => if names.len() == 0 {
            (
                finished(
                    t,
                    if plan.len() == 0 {
                        "任务无法完成:未选择任何工具"@
                    } else {
                        "任务无法完成: "@ + plan
                    },
                    now,
                ),
                PhaseNext::Finish,
            )
        } else {
            let valid = sorted_out(t.mode, names, true);
            let invalid = sorted_out(t.mode, names, false);
            if valid.len() == 0 {
                (
                    failed(t, "模型选择了无效工具: "@ + text::quoted_list(invalid), now),
                    PhaseNext::Finish,
                )
            } else {
                (
                    TaskView {
                        selected: valid,
                        status: TaskStatus::Executing,
                        msgs: seq![
                            llm::msg_of("system"@, tools::exec_sys_of(t.mode, valid)),
                        ] + t.msgs,
                        ..t
                    },
                    PhaseNext::Continue,
                )
            }
        },
    }
}

/// A step that the helper wants taken up: known tools only, sensitive ones for a
/// privileged role only, and nothing before it was approved.
pub open spec fn stepped(
    t: TaskView,
    out: tools::StepOutputView,
    step_id: Seq<char>,
    now: i64,
) -> (TaskView, PhaseNext) {
    match out {
        tools::StepOutputView::Done(summary) => (finished(t, summary, now), PhaseNext::Finish),
        tools::StepOutputView::Invalid(e) => (
            fed_back(t, "输出无法解析("@ + e + "),请严格只输出一个 JSON 对象"@),
            PhaseNext::Continue,
        ),
        tools::StepOutputView::Call { tool, params, note } => match tools::tool_of(t.mode, tool) {
            None => (
                fed_back(t, "工具「"@ + tool + "」不存在,请从目录中选择"@),
                PhaseNext::Continue,
            ),
            Some(def) => if def.sensitive && !tools::is_privileged(t.origin.role) {
                (
                    fed_back(
                        t,
                        "工具「"@ + tool
                            + "」为敏感操作,仅群主/管理员(或白名单)可用,请换方案或直接 done"@,
                    ),
                    PhaseNext::Continue,
                )
            } else {
                let u = if t.selected.contains(tool) {
                    t
                } else {
                    usage_appended(t, tool, def.usage)
                };
                (
                    TaskView {
                        pending: Some(
                            PendingView {
                                step_id,
                                tool,
                                params,
                                note,
                                sensitive: def.sensitive,
                                permission: if def.sensitive {
                                    "敏感操作 · 仅群主/管理员 · 请谨慎审批"@
                                } else {
                                    "常规操作"@
                                },
                            },
                        ),
                        status: TaskStatus::AwaitingApproval,
                        ..u
                    },
                    PhaseNext::Continue,
                )
            },
        },
    }
}

/// What ends the wait for an approval.
#[derive(Debug, Clone, Copy, PartialEq, Eq, Structural)]
pub enum ApprovalEvent {
    Stopped,
    /// The pause of the task was switched.
    PauseChanged,
    Decided(ApprovalDecision),
    /// Nobody can decide any more; that counts as a no.
    Lost,
    TimedOut,
}

/// What follows the wait for an approval.
pub enum ApprovalNext {
    Go(PhaseNext),
    /// The step is to be taken.
    Execute(PendingStep),
}

pub enum ApprovalNextView {
    Go(PhaseNext),
    Execute(PendingView),
}

impl View for ApprovalNext {
    type V = ApprovalNextView;

    open spec fn view(&self) -> ApprovalNextView {
        match self {
            ApprovalNext::Go(n) => ApprovalNextView::Go(*n),
            ApprovalNext::Execute(s) => ApprovalNextView::Execute(s@),
        }
    }
}

/// The end of the wait taken up.
pub open spec fn decided(t: TaskView, ev: ApprovalEvent) -> (TaskView, ApprovalNextView) {
    let closed = TaskView { approval_open: false, ..t };
    match ev {
        ApprovalEvent::Stopped => (closed, ApprovalNextView::Go(PhaseNext::Finish)),
        ApprovalEvent::PauseChanged | ApprovalEvent::TimedOut => (
            TaskView { status: TaskStatus::Paused, ..closed },
            ApprovalNextView::Go(PhaseNext::Paused),
        ),
        _ => match t.pending {
            None => (closed, ApprovalNextView::Go(PhaseNext::Continue)),
            Some(step) => {
                let taken = TaskView { pending: None, ..closed };
                if ev == ApprovalEvent::Decided(ApprovalDecision::Approved) {
                    (taken, ApprovalNextView::Execute(step))
                } else {
                    (
                        fed_back(
                            taken,
                            "用户拒绝了上一步操作(工具「"@ + step.tool
                                + "」)。请调整方案或直接输出 done 结束任务。"@,
                        ),
                        ApprovalNextView::Go(PhaseNext::Continue),
                    )
                }
            },
        },
    }
}

/// The words and the success of a result.
pub open spec fn result_text(r: Result<String, String>) -> (Seq<char>, bool) {
    match r {
        Ok(s) => (s@, true),
        Err(e) => (e@, false),
    }
}

/// What the helper said when it called a tool.
pub open spec fn call_words(step: PendingView) -> Seq<char> {
    "工具调用: "@ + step.tool + " 参数: "@ + json::json_text(step.params) + (if step.note.len() == 0 {
        Seq::<char>::empty()
    } else {
        "(说明:"@ + step.note + ")"@
    })
}

/// A step that was taken, with its result.
pub open spec fn recorded(t: TaskView, step: PendingView, result: (Seq<char>, bool), ts: i64) -> TaskView {
    TaskView {
        steps: t.steps.push(
            StepView { tool: step.tool, params: step.params, result: result.0, ok: result.1, ts },
        ),
        rounds: if t.rounds < u32::MAX {
            (t.rounds + 1) as u32
        } else {
            t.rounds
        },
        status: TaskStatus::Executing,
        msgs: t.msgs.push(llm::msg_of("assistant"@, call_words(step))).push(
            llm::msg_of(
                "user"@,
                "工具「"@ + step.tool + "」执行结果: "@ + text::truncate_of(result.0, 2000),
            ),
        ),
        ..t
    }
}

proof fn lemma_msgs_push(v: Seq<ApiMessage>, m: ApiMessage)
    ensures
        llm::msgs_view(v.push(m)) == llm::msgs_view(v).push(m@),
{
    assert(llm::msgs_view(v.push(m)) =~= llm::msgs_view(v).push(m@));
}

proof fn lemma_views_push(v: Seq<String>, s: String)
    ensures
        text::views(v.push(s)) == text::views(v).push(s@),
{
    assert(text::views(v.push(s)) =~= text::views(v).push(s@));
}

impl AgentTask {
    pub fn fail(&mut self, err: &str, now: i64)
        ensures
            final(self)@ == failed(old(self)@, err@, now),
    {
        self.status = TaskStatus::Failed;
        self.error = Some(err.to_owned());
        self.finished_ts = Some(now);
        self.approval_open = false;
        self.pending = None;
    }

    pub fn finish(&mut self, summary: &str, now: i64)
        ensures
            final(self)@ == finished(old(self)@, summary@, now),
    {
        self.status = TaskStatus::Done;
        self.summary = Some(summary.to_owned());
        self.finished_ts = Some(now);
        self.approval_open = false;
        self.pending = None;
    }

    pub fn push_feedback(&mut self, word: &str)
        ensures
            final(self)@ == fed_back(old(self)@, word@),
    {
        let m = llm::message("user", word.to_owned());
        proof {
            lemma_msgs_push(self.msgs@, m);
        }
        self.msgs.push(m);
        self.status = TaskStatus::Executing;
    }

    pub fn append_usage(&mut self, tool: &str, usage: &str)
        ensures
            final(self)@ == usage_appended(old(self)@, tool@, usage@),
    {
        if self.msgs.len() > 0 && text::same(self.msgs[0].role.as_str(), "system") {
            let mut content = self.msgs[0].content.clone();
            content.append("\n【补充工具:");
            content.append(tool);
            content.append("】");
            content.append(usage);
            let m = llm::message("system", content);
            proof {
                assert(llm::msgs_view(self.msgs@.update(0, m)) =~= llm::msgs_view(self.msgs@).update(
                    0,
                    m@,
                ));
            }
            self.msgs.set(0, m);
        }
        if !tools::is_among(&self.selected_tools, tool) {
            let s = tool.to_owned();
            proof {
                lemma_views_push(self.selected_tools@, s);
            }
            self.selected_tools.push(s);
        }
    }

    /// The sandbox was set up, or could not be.
    pub fn setup_done(&mut self, result: Result<(), String>, now: i64) -> (r: PhaseNext)
        ensures
            match result {
                Ok(_) => r == PhaseNext::Continue && final(self)@ == (TaskView {
                    status: TaskStatus::SandboxActivate,
                    ..old(self)@
                }),
                Err(e) => r == PhaseNext::Finish && final(self)@ == failed(
                    old(self)@,
                    "沙箱搭建失败: "@ + e@,
                    now,
                ),
            },
    {
        match result {
            Ok(_) => {
                self.status = TaskStatus::SandboxActivate;
                PhaseNext::Continue
            },
            Err(e) => {
                let mut s = "沙箱搭建失败: ".to_owned();
                s.append(e.as_str());
                self.fail(s.as_str(), now);
                PhaseNext::Finish
            },
        }
    }

    /// The sandbox was made ready, or could not be.
    pub fn activate_done(&mut self, result: Result<(), String>, now: i64) -> (r: PhaseNext)
        ensures
            match result {
                Ok(_) => r == PhaseNext::Continue && final(self)@ == (TaskView {
                    status: TaskStatus::Selecting,
                    ..old(self)@
                }),
                Err(e) => r == PhaseNext::Finish && final(self)@ == failed(
                    old(self)@,
                    "沙箱激活失败: "@ + e@,
                    now,
                ),
            },
    {
        match result {
            Ok(_) => {
                self.status = TaskStatus::Selecting;
                PhaseNext::Continue
            },
            Err(e) => {
                let mut s = "沙箱激活失败: ".to_owned();
                s.append(e.as_str());
                self.fail(s.as_str(), now);
                PhaseNext::Finish
            },
        }
    }

    /// The question for the choice of tools. Without a model the task fails.
    pub fn begin_select(&mut self, has_model: bool, cfg: &AgentConfig, now: i64) -> (r: Ask)
        ensures
            if has_model {
                &&& final(self)@ == old(self)@
                &&& r@ == (AskView::Call {
                    messages: seq![
                        llm::msg_of(
                            "system"@,
                            tools::select_sys_of(old(self)@.mode, old(self)@.origin.role),
                        ),
                    ] + old(self)@.msgs,
                    max_tokens: at_least(cfg.select_max_tokens, 64),
                })
            } else {
                final(self)@ == failed(old(self)@, "没有可用模型"@, now) && r@ == AskView::Finish
            },
    {
        if !has_model {
            self.fail("没有可用模型", now);
            return Ask::Finish;
        }
        let system = tools::select_sys(self.mode, self.origin.requester_role.as_str());
        let max_tokens: u32 = if cfg.select_max_tokens < 64 {
            64
        } else {
            cfg.select_max_tokens
        };
        Ask::Call { messages: with_system(system, &self.msgs), max_tokens }
    }

    /// The model failed for the second time.
    pub fn select_failed(&mut self, err: &str, now: i64) -> (r: PhaseNext)
        ensures
            r == PhaseNext::Finish,
            final(self)@ == failed(old(self)@, "工具选择调用失败: "@ + err@, now),
    {
        let mut s = "工具选择调用失败: ".to_owned();
        s.append(err);
        self.fail(s.as_str(), now);
        PhaseNext::Finish
    }

    /// Takes up the model's choice of tools.
    pub fn select_reply(&mut self, reply: &str, now: i64) -> (r: PhaseNext)
        ensures
            (final(self)@, r) == selected(
                old(self)@,
                tools::selection_of(tools::embedded_of(reply@)),
                now,
            ),
    {
        self.take_selection(tools::parse_select(reply), now)
    }

    /// Takes up a choice of tools.
    pub fn take_selection(&mut self, choice: Result<(Vec<String>, String), String>, now: i64) -> (r:
        PhaseNext)
        ensures
            forall|want: Result<(Seq<Seq<char>>, Seq<char>), Seq<char>>| #[trigger]
                tools::is_selection(choice, want) ==> (final(self)@, r) == selected(
                    old(self)@,
                    want,
                    now,
                ),
    {
        let (names, plan) = match choice {
            Ok(x) => x,
            Err(_) => {
                let m = llm::message(
                    "user",
                    "上一次输出无法解析为 JSON,请严格只输出一个 JSON 对象: {\"tools\": [...], \"plan\": \"...\"}".to_owned(),
                );
                proof {
                    lemma_msgs_push(self.msgs@, m);
                }
                self.msgs.push(m);
                return PhaseNext::Continue;
            },
        };
        let ghost all = text::views(names@);
        assert(all.len() == names@.len());
        if names.len() == 0 {
            if plan.as_str().is_empty() {
                self.finish("任务无法完成:未选择任何工具", now);
            } else {
                let mut s = "任务无法完成: ".to_owned();
                s.append(plan.as_str());
                self.finish(s.as_str(), now);
            }
            return PhaseNext::Finish;
        }
        let (valid, invalid) = sort_out(self.mode, &names);
        assert(text::views(valid@).len() == valid@.len());
        if valid.len() == 0 {
            let mut s = "模型选择了无效工具: ".to_owned();
            s.append(text::debug_list(&invalid).as_str());
            self.fail(s.as_str(), now);
            return PhaseNext::Finish;
        }
        let system = tools::exec_sys(self.mode, &valid);
        self.msgs = with_system(system, &self.msgs);
        self.selected_tools = valid;
        self.status = TaskStatus::Executing;
        PhaseNext::Continue
    }

    /// The question for the next step: a step that waits comes first, and the number of
    /// rounds is bounded.
    pub fn begin_step(&mut self, has_model: bool, cfg: &AgentConfig, now: i64) -> (r: Ask)
        ensures
            if old(self)@.pending is Some {
                final(self)@ == old(self)@ && r@ == AskView::Approve
            } else if old(self)@.rounds >= old(self)@.max_rounds {
                r@ == AskView::Finish && final(self)@ == finished(
                    old(self)@,
                    "已达到执行轮次上限("@ + number::dec(old(self)@.max_rounds as int) + "),任务结束"@,
                    now,
                )
            } else if !has_model {
                final(self)@ == failed(old(self)@, "没有可用模型"@, now) && r@ == AskView::Finish
            } else {
                final(self)@ == old(self)@ && r@ == (AskView::Call {
                    messages: old(self)@.msgs,
                    max_tokens: at_least(cfg.step_max_tokens, 64),
                })
            },
    {
        if self.pending.is_some() {
            return Ask::Approve;
        }
        if self.rounds >= self.max_rounds {
            let mut s = "已达到执行轮次上限(".to_owned();
            s.append(number::u64_text(self.max_rounds as u64).as_str());
            s.append("),任务结束");
            self.finish(s.as_str(), now);
            return Ask::Finish;
        }
        if !has_model {
            self.fail("没有可用模型", now);
            return Ask::Finish;
        }
        let max_tokens: u32 = if cfg.step_max_tokens < 64 {
            64
        } else {
            cfg.step_max_tokens
        };
        Ask::Call { messages: llm::copy_messages(&self.msgs), max_tokens }
    }

    /// The model failed for the second time.
    pub fn step_failed(&mut self, err: &str, now: i64) -> (r: PhaseNext)
        ensures
            r == PhaseNext::Finish,
            final(self)@ == failed(old(self)@, "执行调用失败: "@ + err@, now),
    {
        let mut s = "执行调用失败: ".to_owned();
        s.append(err);
        self.fail(s.as_str(), now);
        PhaseNext::Finish
    }

    /// Takes up the model's next step, which gets the given id if it is to wait.
    pub fn step_reply(&mut self, reply: &str, step_id: String, now: i64) -> (r: PhaseNext)
        ensures
            (final(self)@, r) == stepped(
                old(self)@,
                tools::step_of(tools::embedded_of(reply@)),
                step_id@,
                now,
            ),
    {
        self.take_step(tools::parse_step(reply), step_id, now)
    }

    /// Takes up a step.
    pub fn take_step(&mut self, out: StepOutput, step_id: String, now: i64) -> (r: PhaseNext)
        ensures
            (final(self)@, r) == stepped(old(self)@, out@, step_id@, now),
    {
        match out {
            StepOutput::Done { summary } => {
                self.finish(summary.as_str(), now);
                PhaseNext::Finish
            },
            StepOutput::Invalid(e) => {
                let mut s = "输出无法解析(".to_owned();
                s.append(e.as_str());
                s.append("),请严格只输出一个 JSON 对象");
                self.push_feedback(s.as_str());
                PhaseNext::Continue
            },
            StepOutput::Call { tool, params, note } => {
                let def = match tools::tool_by_name(self.mode, tool.as_str()) {
                    Some(d) => d,
                    None => {
                        let mut s = "工具「".to_owned();
                        s.append(tool.as_str());
                        s.append("」不存在,请从目录中选择");
                        self.push_feedback(s.as_str());
                        return PhaseNext::Continue;
                    },
                };
                if def.sensitive && !tools::sensitive_allowed(self.origin.requester_role.as_str()) {
                    let mut s = "工具「".to_owned();
                    s.append(tool.as_str());
                    s.append("」为敏感操作,仅群主/管理员(或白名单)可用,请换方案或直接 done");
                    self.push_feedback(s.as_str());
                    return PhaseNext::Continue;
                }
                if !tools::is_among(&self.selected_tools, tool.as_str()) {
                    self.append_usage(tool.as_str(), def.usage);
                }
                let permission = if def.sensitive {
                    "敏感操作 · 仅群主/管理员 · 请谨慎审批"
                } else {
                    "常规操作"
                };
                self.pending = Some(
                    PendingStep {
                        step_id,
                        tool,
                        params,
                        note,
                        sensitive: def.sensitive,
                        permission: permission.to_owned(),
                    },
                );
                self.status = TaskStatus::AwaitingApproval;
                PhaseNext::Continue
            },
        }
    }

    /// Opens the wait for an approval; gives how many seconds it may last.
    pub fn begin_approval(&mut self, cfg: &AgentConfig) -> (r: u64)
        ensures
            final(self)@ == (TaskView { approval_open: true, ..old(self)@ }),
            r == if cfg.approval_timeout_secs < 30 {
                30
            } else {
                cfg.approval_timeout_secs
            },
            r >= 30 && r >= cfg.approval_timeout_secs,
            final(self)@.approval_open && final(self)@.pending == old(self)@.pending,
    {
        self.approval_open = true;
        if cfg.approval_timeout_secs < 30 {
            30
        } else {
            cfg.approval_timeout_secs
        }
    }

    /// Takes up the end of the wait for an approval.
    pub fn approval_event(&mut self, ev: ApprovalEvent) -> (r: ApprovalNext)
        ensures
            (final(self)@, r@) == decided(old(self)@, ev),
    {
        self.approval_open = false;
        match ev {
            ApprovalEvent::Stopped => {
                return ApprovalNext::Go(PhaseNext::Finish);
            },
            ApprovalEvent::PauseChanged | ApprovalEvent::TimedOut => {
                self.status = TaskStatus::Paused;
                return ApprovalNext::Go(PhaseNext::Paused);
            },
            _ => {},
        }
        let step = match self.pending.take() {
            Some(s) => s,
            None => {
                return ApprovalNext::Go(PhaseNext::Continue);
            },
        };
        if ev == ApprovalEvent::Decided(ApprovalDecision::Approved) {
            return ApprovalNext::Execute(step);
        }
        let mut s = "用户拒绝了上一步操作(工具「".to_owned();
        s.append(step.tool.as_str());
        s.append("」)。请调整方案或直接输出 done 结束任务。");
        self.push_feedback(s.as_str());
        ApprovalNext::Go(PhaseNext::Continue)
    }

    /// Records a step that was taken.
    pub fn step_done(&mut self, step: PendingStep, result: Result<String, String>, ts: i64)
        ensures
            final(self)@ == recorded(old(self)@, step@, result_text(result), ts),
    {
        let ghost sv = step@;
        let mut words = "工具调用: ".to_owned();
        words.append(step.tool.as_str());
        words.append(" 参数: ");
        words.append(step.params.text());
        let ghost head = words@;
        if !step.note.as_str().is_empty() {
            words.append("(说明:");
            words.append(step.note.as_str());
            words.append(")");
            assert(words@ =~= head + ("(说明:"@ + sv.note + ")"@));
        } else {
            assert(words@ =~= head + Seq::<char>::empty());
        }
        let (result_words, ok) = match result {
            Ok(s) => (s, true),
            Err(e) => (e, false),
        };
        let mut told = "工具「".to_owned();
        told.append(step.tool.as_str());
        told.append("」执行结果: ");
        told.append(text::truncate(result_words.as_str(), 2000).as_str());
        let called = llm::message("assistant", words);
        let answered = llm::message("user", told);
        let record = StepRecord { tool: step.tool, params: step.params, result: result_words, ok, ts };
        proof {
            lemma_msgs_push(self.msgs@, called);
            lemma_msgs_push(self.msgs@.push(called), answered);
            assert(self.steps@.push(record).map_values(|s: StepRecord| s@) =~= self.steps@.map_values(
                |s: StepRecord| s@,
            ).push(record@));
        }
        self.steps.push(record);
        if self.rounds < u32::MAX {
            self.rounds = self.rounds + 1;
        }
        self.status = TaskStatus::Executing;
        self.msgs.push(called);
        self.msgs.push(answered);
    }
}

/// The names that are tools of the mode, and those that are not.
fn sort_out(mode: AgentMode, names: &Vec<String>) -> (r: (Vec<String>, Vec<String>))
    ensures
        text::views(r.0@) == sorted_out(mode, text::views(names@), true),
        text::views(r.1@) == sorted_out(mode, text::views(names@), false),
{
    let mut valid: Vec<String> = Vec::new();
    let mut invalid: Vec<String> = Vec::new();
    let ghost all = text::views(names@);
    let mut i: usize = 0;
    proof {
        assert(text::views(valid@) =~= sorted_out(mode, all.take(0), true));
        assert(text::views(invalid@) =~= sorted_out(mode, all.take(0), false));
    }
    while i < names.len()
        invariant
            i <= names@.len(),
            all == text::views(names@),
            text::views(valid@) == sorted_out(mode, all.take(i as int), true),
            text::views(invalid@) == sorted_out(mode, all.take(i as int), false),
        decreases names@.len() - i,
    {
        let n = names[i].clone();
        proof {
            assert(all.take(i + 1).drop_last() == all.take(i as int));
            assert(all.take(i + 1).last() == n@);
            lemma_views_push(valid@, n);
            lemma_views_push(invalid@, n);
        }
        if tools::tool_by_name(mode, n.as_str()).is_some() {
            valid.push(n);
        } else {
            invalid.push(n);
        }
        i += 1;
    }
    assert(all.take(all.len() as int) == all);
    (valid, invalid)
}

/// A call of the model is tried twice: what is noted before it is tried again, after so
/// many calls; nothing where it is given up.
pub fn retry_note(calls: u32, what: &str, err: &str) -> (r: Option<String>)
    ensures
        match r {
            Some(s) => calls < 2 && s@ == what@ + "调用失败,重试: "@ + err@,
            None => calls >= 2,
        },
{
    if calls >= 2 {
        return None;
    }
    let mut s = what.to_owned();
    s.append("调用失败,重试: ");
    s.append(err);
    Some(s)
}

// ---------- who may start a task ----------

/// What is known of the right to start a task.
pub enum RequesterCheck {
    /// It is given, in this role.
    Granted(String),
    Refused(String),
    /// It depends on the role in the group, which this action asks for.
    AskRole(ActionCall),
}

pub enum RequesterView {
    Granted(Seq<char>),
    Refused(Seq<char>),
    AskRole(ActionCallView),
}

impl View for RequesterCheck {
    type V = RequesterView;

    open spec fn view(&self) -> RequesterView {
        match self {
            RequesterCheck::Granted(r) => RequesterView::Granted(r@),
            RequesterCheck::Refused(e) => RequesterView::Refused(e@),
            RequesterCheck::AskRole(c) => RequesterView::AskRole(c@),
        }
    }
}

/// Listed accounts are trusted everywhere; others need the switch in a private
/// conversation and a permitted role in a group.
pub open spec fn requester_of(cfg: AgentConfig, origin: OriginView) -> RequesterView {
    if text::list_of(cfg.owner_whitelist@).contains(number::dec(origin.user_id as int)) {
        RequesterView::Granted("trusted"@)
    } else {
        match origin.kind {
            MsgKind::Private => if cfg.allow_private {
                RequesterView::Granted("private"@)
            } else {
                RequesterView::Refused("私聊触发未开启,或你的 QQ 不在白名单内"@)
            },
            MsgKind::Group => match origin.group_id {
                Some(gid) => if gid <= 0 {
                    RequesterView::Refused("缺少群号"@)
                } else {
                    RequesterView::AskRole(
                        ActionCallView {
                            action: "get_group_member_info"@,
                            params: seq![
                                ("group_id"@, PartView::Int(gid)),
                                ("user_id"@, PartView::Int(origin.user_id)),
                            ],
                        },
                    )
                },
                None => RequesterView::Refused("缺少群号"@),
            },
        }
    }
}

/// Whether somebody may start a task, as far as the settings tell.
pub fn check_requester(cfg: &AgentConfig, origin: &OriginInfo) -> (r: RequesterCheck)
    ensures
        r@ == requester_of(*cfg, origin@),
{
    let listed = text::list_entries(cfg.owner_whitelist.as_str());
    if tools::is_among(&listed, number::i64_text(origin.user_id).as_str()) {
        return RequesterCheck::Granted("trusted".to_owned());
    }
    match origin.kind {
        MsgKind::Private => if cfg.allow_private {
            RequesterCheck::Granted("private".to_owned())
        } else {
            RequesterCheck::Refused("私聊触发未开启,或你的 QQ 不在白名单内".to_owned())
        },
        MsgKind::Group => {
            let gid: i64 = match origin.group_id {
                Some(g) => g,
                None => 0,
            };
            if gid <= 0 {
                return RequesterCheck::Refused("缺少群号".to_owned());
            }
            let call = ActionCall {
                action: "get_group_member_info".to_owned(),
                params: vec![
                    ("group_id".to_owned(), Part::Int(gid)),
                    ("user_id".to_owned(), Part::Int(origin.user_id)),
                ],
            };
            assert(call@.params =~= seq![
                ("group_id"@, PartView::Int(gid)),
                ("user_id"@, PartView::Int(origin.user_id)),
            ]);
            RequesterCheck::AskRole(call)
        },
    }
}

/// The role in an answer about a member; a plain member where none can be read.
pub open spec fn role_in(answer: Result<Json, String>) -> Seq<char> {
    match answer {
        Ok(j) => json::str_field_or(j@, "role"@, "member"@),
        Err(_) => "member"@,
    }
}

/// The right of a role in a group to start a task.
pub open spec fn is_role_result(r: Result<String, String>, allowed: Seq<char>, role: Seq<char>) -> bool {
    let list = text::list_of(allowed);
    if list.len() == 0 {
        r matches Err(e) && e@ == "仅白名单 QQ 可以发起任务"@
    } else if list.contains(role) {
        r matches Ok(x) && x@ == role
    } else {
        r matches Err(e) && e@ == "仅"@ + text::join_of(list, "/"@) + "(角色)可以发起任务"@
    }
}

/// Whether the role that was asked for may start a task.
pub fn check_role(cfg: &AgentConfig, answer: Result<Json, String>) -> (r: Result<String, String>)
    ensures
        is_role_result(r, cfg.allowed_group_roles@, role_in(answer)),
{
    let role = match answer {
        Ok(j) => j.str_field_or("role", "member").to_owned(),
        Err(_) => "member".to_owned(),
    };
    let list = text::list_entries(cfg.allowed_group_roles.as_str());
    assert(text::views(list@).len() == list@.len());
    if list.len() == 0 {
        Err("仅白名单 QQ 可以发起任务".to_owned())
    } else if tools::is_among(&list, role.as_str()) {
        Ok(role)
    } else {
        let mut e = "仅".to_owned();
        e.append(text::join(&list, "/").as_str());
        e.append("(角色)可以发起任务");
        Err(e)
    }
}

// ---------- all tasks ----------

/// Where the task with an id stands, looked for from position `i` on.
pub open spec fn place_from(tasks: Seq<TaskView>, id: Seq<char>, i: int) -> Option<int>
    decreases tasks.len() - i,
{
    if i < 0 || i >= tasks.len() {
        None
    } else if tasks[i].id == id {
        Some(i)
    } else {
        place_from(tasks, id, i + 1)
    }
}

pub open spec fn place_of(tasks: Seq<TaskView>, id: Seq<char>) -> Option<int> {
    place_from(tasks, id, 0)
}

/// The first task with an id that is over, from position `i` on.
pub open spec fn ended_from(tasks: Seq<TaskView>, id: Seq<char>, i: int) -> Option<int>
    decreases tasks.len() - i,
{
    if i < 0 || i >= tasks.len() {
        None
    } else if tasks[i].id == id && tasks[i].status.is_terminal() {
        Some(i)
    } else {
        ended_from(tasks, id, i + 1)
    }
}

/// Why a task cannot be started.
pub open spec fn spawn_fault(cfg: AgentConfig, mode: AgentMode, goal: Seq<char>) -> Option<Seq<char>> {
    if mode == AgentMode::QqOps && !cfg.enable_qq_ops {
        Some("QQ 操作模式已关闭(可在 SubAgent 设置中开启)"@)
    } else if mode == AgentMode::Sandbox && !cfg.enable_sandbox {
        Some("沙箱模式已关闭(可在 SubAgent 设置中开启)"@)
    } else if text::trim_of(goal).len() == 0 {
        Some("任务目标为空"@)
    } else {
        None
    }
}

/// A task at its start.
pub open spec fn fresh(
    cfg: AgentConfig,
    mode: AgentMode,
    goal: Seq<char>,
    origin: OriginView,
    id: Seq<char>,
    now: i64,
    backend: Option<Backend>,
) -> TaskView {
    let name = match backend {
        Some(b) => b.name_of(),
        None => Seq::<char>::empty(),
    };
    TaskView {
        id,
        mode,
        goal,
        origin,
        status: if mode == AgentMode::Sandbox {
            TaskStatus::SandboxSetup
        } else {
            TaskStatus::Selecting
        },
        steps: Seq::<StepView>::empty(),
        pending: None,
        summary: None,
        error: None,
        rounds: 0,
        max_rounds: at_least(cfg.max_rounds, 1),
        selected: Seq::<Seq<char>>::empty(),
        sandbox_backend: name,
        created_ts: now,
        finished_ts: None,
        msgs: seq![llm::msg_of("user"@, brief_of(mode, goal, origin, name))],
        approval_open: false,
        backend,
    }
}

/// The sandbox of a task.
pub open spec fn backend_for(
    cfg: AgentConfig,
    sandbox_cfg: SandboxConfig,
    mode: AgentMode,
    root: String,
) -> Option<Backend> {
    if mode == AgentMode::Sandbox {
        Some(
            if cfg.sandbox_backend@ == "docker"@ {
                Backend::Docker(sandbox::DockerBackend { root, cfg: sandbox_cfg })
            } else {
                Backend::Jail(sandbox::JailBackend { root, cfg: sandbox_cfg })
            },
        )
    } else {
        None
    }
}

/// What the runner of a task does next.
#[derive(Debug, Clone, Copy, PartialEq, Eq, Structural)]
pub enum RunnerStep {
    Break,
    Setup,
    Activate,
    Select,
    Step,
}

/// How long a task may take in all, in seconds.
pub open spec fn task_limit(cfg: AgentConfig) -> u64 {
    if cfg.task_timeout_secs < 60 {
        60
    } else {
        cfg.task_timeout_secs
    }
}

/// The runner's next move on a task, and the task after it. A pause and the limit on
/// its time come before anything else.
pub open spec fn run_next(t: TaskView, paused: bool, now: i64, cfg: AgentConfig) -> (TaskView, RunnerStep) {
    if paused {
        (
            if !t.status.is_terminal() && t.status != TaskStatus::Paused {
                TaskView { status: TaskStatus::Paused, approval_open: false, ..t }
            } else {
                t
            },
            RunnerStep::Break,
        )
    } else if now - t.created_ts > task_limit(cfg) as i64 {
        (
            failed(t, "任务总超时("@ + number::dec(task_limit(cfg) as int) + "s)"@, now),
            RunnerStep::Break,
        )
    } else {
        (
            t,
            match t.status {
                TaskStatus::SandboxSetup => RunnerStep::Setup,
                TaskStatus::SandboxActivate => RunnerStep::Activate,
                TaskStatus::Selecting => RunnerStep::Select,
                TaskStatus::Executing => RunnerStep::Step,
                TaskStatus::AwaitingApproval => RunnerStep::Step,
                _ => RunnerStep::Break,
            },
        )
    }
}

impl AgentTask {
    /// The runner's next move.
    pub fn run_next(&mut self, paused: bool, now: i64, cfg: &AgentConfig) -> (r: RunnerStep)
        ensures
            (final(self)@, r) == run_next(old(self)@, paused, now, *cfg),
    {
        if paused {
            if !self.status.terminal() && self.status != TaskStatus::Paused {
                self.status = TaskStatus::Paused;
                self.approval_open = false;
            }
            return RunnerStep::Break;
        }
        let limit: u64 = if cfg.task_timeout_secs < 60 {
            60
        } else {
            cfg.task_timeout_secs
        };
        let lasted: i128 = now as i128 - self.created_ts as i128;
        let bound: i64 = #[verifier::truncate] (limit as i64);
        if lasted > bound as i128 {
            let mut e = "任务总超时(".to_owned();
            e.append(number::u64_text(limit).as_str());
            e.append("s)");
            self.fail(e.as_str(), now);
            return RunnerStep::Break;
        }
        match self.status {
            TaskStatus::SandboxSetup => RunnerStep::Setup,
            TaskStatus::SandboxActivate => RunnerStep::Activate,
            TaskStatus::Selecting => RunnerStep::Select,
            TaskStatus::Executing => RunnerStep::Step,
            TaskStatus::AwaitingApproval => RunnerStep::Step,
            _ => RunnerStep::Break,
        }
    }
}

/// How far the wait for a task has come.
#[derive(Debug, Clone, Copy, PartialEq, Eq, Structural)]
pub enum WaitStep {
    /// It is over; it stands at this position.
    Finished(usize),
    /// There is no such task.
    Gone,
    /// It takes too long.
    Expired,
    Wait,
}

/// The positions of the tasks, the youngest first; of two of one age the one that was
/// started first comes first.
pub open spec fn is_listing(order: Seq<int>, tasks: Seq<TaskView>) -> bool {
    &&& order.len() == tasks.len()
    &&& forall|i: int| 0 <= i < order.len() ==> 0 <= #[trigger] order[i] < tasks.len()
    &&& forall|i: int, j: int|
        0 <= i < j < order.len() ==> listed_before(tasks, #[trigger] order[i], #[trigger] order[j])
}

pub open spec fn listed_before(tasks: Seq<TaskView>, a: int, b: int) -> bool {
    tasks[a].created_ts > tasks[b].created_ts || (tasks[a].created_ts == tasks[b].created_ts && a < b)
}

pub struct AgentManager {
    pub tasks: Vec<AgentTask>,
}

proof fn lemma_tasks_update(v: Seq<AgentTask>, i: int, t: AgentTask)
    requires
        0 <= i < v.len(),
    ensures
        task_views(v.update(i, t)) == task_views(v).update(i, t@),
{
    assert(task_views(v.update(i, t)) =~= task_views(v).update(i, t@));
}

impl AgentManager {
    pub open spec fn views(&self) -> Seq<TaskView> {
        task_views(self.tasks@)
    }

    pub fn new() -> (r: AgentManager)
        ensures
            r.views() == Seq::<TaskView>::empty(),
    {
        let r = AgentManager { tasks: Vec::new() };
        assert(r.views() =~= Seq::<TaskView>::empty());
        r
    }

    /// Whether tasks of a role may use sensitive tools.
    pub fn sensitive_allowed(role: &str) -> (r: bool)
        ensures
            r == tools::is_privileged(role@),
    {
        tools::sensitive_allowed(role)
    }

    /// Where the task with an id stands.
    pub fn find(&self, id: &str) -> (r: Option<usize>)
        ensures
            match r {
                Some(i) => place_of(self.views(), id@) == Some(i as int) && i < self.tasks@.len(),
                None => place_of(self.views(), id@) is None,
            },
    {
        let mut i: usize = 0;
        while i < self.tasks.len()
            invariant
                i <= self.tasks@.len(),
                place_from(self.views(), id@, 0) == place_from(self.views(), id@, i as int),
            decreases self.tasks@.len() - i,
        {
            assert(self.views()[i as int] == self.tasks@[i as int]@);
            if text::same(self.tasks[i].id.as_str(), id) {
                return Some(i);
            }
            i += 1;
        }
        None
    }

    /// Starts a task by hand, in a trusted role.
    pub fn spawn_trusted(
        &mut self,
        cfg: &AgentConfig,
        sandbox_cfg: SandboxConfig,
        mode: AgentMode,
        goal: &str,
        session_key: &str,
        id: String,
        now: i64,
        root: String,
    ) -> (r: Result<(), String>)
        ensures
            match spawn_fault(*cfg, mode, goal@) {
                Some(why) => (r matches Err(e) && e@ == why) && final(self).views() == old(
                    self,
                ).views(),
                None => r is Ok && final(self).views() == old(self).views().push(
                    fresh(
                        *cfg,
                        mode,
                        text::trim_of(goal@),
                        OriginView {
                            kind: MsgKind::Private,
                            group_id: None,
                            user_id: 0,
                            session_key: session_key@,
                            role: "trusted"@,
                        },
                        id@,
                        now,
                        backend_for(*cfg, sandbox_cfg, mode, root),
                    ),
                ),
            },
    {
        let origin = OriginInfo {
            kind: MsgKind::Private,
            group_id: None,
            user_id: 0,
            session_key: session_key.to_owned(),
            requester_role: "trusted".to_owned(),
        };
        self.spawn_inner(cfg, sandbox_cfg, mode, goal, origin, id, now, root)
    }

    /// Starts a task for somebody whose right to do so was looked into.
    pub fn spawn(
        &mut self,
        cfg: &AgentConfig,
        sandbox_cfg: SandboxConfig,
        mode: AgentMode,
        goal: &str,
        origin: OriginInfo,
        right: Result<String, String>,
        id: String,
        now: i64,
        root: String,
    ) -> (r: Result<(), String>)
        ensures
            match right {
                Err(e) => r == Err::<(), String>(e) && final(self).views() == old(self).views(),
                Ok(role) => match spawn_fault(*cfg, mode, goal@) {
                    Some(why) => (r matches Err(e) && e@ == why) && final(self).views() == old(
                        self,
                    ).views(),
                    None => r is Ok && final(self).views() == old(self).views().push(
                        fresh(
                            *cfg,
                            mode,
                            text::trim_of(goal@),
                            OriginView { role: role@, ..origin@ },
                            id@,
                            now,
                            backend_for(*cfg, sandbox_cfg, mode, root),
                        ),
                    ),
                },
            },
    {
        match right {
            Err(e) => Err(e),
            Ok(role) => self.spawn_inner(
                cfg,
                sandbox_cfg,
                mode,
                goal,
                origin.with_role(role),
                id,
                now,
                root,
            ),
        }
    }

    fn spawn_inner(
        &mut self,
        cfg: &AgentConfig,
        sandbox_cfg: SandboxConfig,
        mode: AgentMode,
        goal: &str,
        origin: OriginInfo,
        id: String,
        now: i64,
        root: String,
    ) -> (r: Result<(), String>)
        ensures
            match spawn_fault(*cfg, mode, goal@) {
                Some(why) => (r matches Err(e) && e@ == why) && final(self).views() == old(
                    self,
                ).views(),
                None => r is Ok && final(self).views() == old(self).views().push(
                    fresh(
                        *cfg,
                        mode,
                        text::trim_of(goal@),
                        origin@,
                        id@,
                        now,
                        backend_for(*cfg, sandbox_cfg, mode, root),
                    ),
                ),
            },
    {
        if mode == AgentMode::QqOps && !cfg.enable_qq_ops {
            return Err("QQ 操作模式已关闭(可在 SubAgent 设置中开启)".to_owned());
        }
        if mode == AgentMode::Sandbox && !cfg.enable_sandbox {
            return Err("沙箱模式已关闭(可在 SubAgent 设置中开启)".to_owned());
        }
        let goal = text::trim(goal).to_owned();
        if goal.as_str().is_empty() {
            return Err("任务目标为空".to_owned());
        }
        let backend: Option<Backend> = if mode == AgentMode::Sandbox {
            match sandbox::factory(cfg.sandbox_backend.as_str(), sandbox_cfg, root) {
                Ok(b) => Some(b),
                Err(e) => {
                    return Err(e);
                },
            }
        } else {
            None
        };
        let name = match &backend {
            Some(b) => b.name().to_owned(),
            None => String::new(),
        };
        let status = if mode == AgentMode::Sandbox {
            TaskStatus::SandboxSetup
        } else {
            TaskStatus::Selecting
        };
        let max_rounds: u32 = if cfg.max_rounds < 1 {
            1
        } else {
            cfg.max_rounds
        };
        let brief = build_task_brief(mode, goal.as_str(), &origin, name.as_str());
        let mut msgs: Vec<ApiMessage> = Vec::new();
        msgs.push(llm::message("user", brief));
        let task = AgentTask {
            id,
            mode,
            goal,
            origin,
            status,
            steps: Vec::new(),
            pending: None,
            summary: None,
            error: None,
            rounds: 0,
            max_rounds,
            selected_tools: Vec::new(),
            sandbox_backend: name,
            created_ts: now,
            finished_ts: None,
            msgs,
            approval_open: false,
            backend,
        };
        proof {
            let want = fresh(
                *cfg,
                mode,
                goal@,
                origin@,
                id@,
                now,
                backend_for(*cfg, sandbox_cfg, mode, root),
            );
            assert(backend == backend_for(*cfg, sandbox_cfg, mode, root));
            assert(name@ =~= want.sandbox_backend);
            assert(task@.steps =~= want.steps);
            assert(task@.selected =~= want.selected);
            assert(task@.msgs =~= want.msgs);
            assert(task@ == want);
            assert(task_views(self.tasks@.push(task)) =~= task_views(self.tasks@).push(task@));
        }
        self.tasks.push(task);
        Ok(())
    }

    /// Looks at a task that somebody waits for.
    pub fn wait_finished(&self, id: &str, expired: bool) -> (r: WaitStep)
        ensures
            match place_of(self.views(), id@) {
                None => r == WaitStep::Gone,
                Some(i) => if self.views()[i].status.is_terminal() {
                    r matches WaitStep::Finished(k) && k == i
                } else if expired {
                    r == WaitStep::Expired
                } else {
                    r == WaitStep::Wait
                },
            },
    {
        match self.find(id) {
            None => WaitStep::Gone,
            Some(i) => {
                assert(self.views()[i as int] == self.tasks@[i as int]@);
                if self.tasks[i].status.terminal() {
                    WaitStep::Finished(i)
                } else if expired {
                    WaitStep::Expired
                } else {
                    WaitStep::Wait
                }
            },
        }
    }

    /// Approves the step that waits; gives what is to be told to whoever waits for it.
    pub fn approve_step(&mut self, id: &str, step_id: &str) -> (r: Result<
        Option<ApprovalDecision>,
        String,
    >)
        ensures
            is_decision(
                old(self).views(),
                final(self).views(),
                id@,
                step_id@,
                ApprovalDecision::Approved,
                r,
            ),
    {
        self.decide_step(id, step_id, ApprovalDecision::Approved)
    }

    /// Turns the step that waits down; gives what is to be told to whoever waits for it.
    pub fn reject_step(&mut self, id: &str, step_id: &str) -> (r: Result<
        Option<ApprovalDecision>,
        String,
    >)
        ensures
            is_decision(
                old(self).views(),
                final(self).views(),
                id@,
                step_id@,
                ApprovalDecision::Rejected,
                r,
            ),
    {
        self.decide_step(id, step_id, ApprovalDecision::Rejected)
    }

    fn decide_step(&mut self, id: &str, step_id: &str, d: ApprovalDecision) -> (r: Result<
        Option<ApprovalDecision>,
        String,
    >)
        ensures
            is_decision(old(self).views(), final(self).views(), id@, step_id@, d, r),
    {
        let i: usize = match self.find(id) {
            Some(i) => i,
            None => {
                return Err("任务不存在".to_owned());
            },
        };
        assert(self.views()[i as int] == self.tasks@[i as int]@);
        match &self.tasks[i].pending {
            None => {
                return Err("当前没有待审批的步骤".to_owned());
            },
            Some(p) => {
                if !text::same(p.step_id.as_str(), step_id) {
                    return Err("步骤 ID 不匹配".to_owned());
                }
            },
        }
        let open = self.tasks[i].approval_open;
        let ghost before = self.tasks@;
        self.tasks[i].approval_open = false;
        proof {
            lemma_tasks_update(before, i as int, self.tasks@[i as int]);
        }
        if open {
            Ok(Some(d))
        } else {
            Ok(None)
        }
    }

    /// Freezes a task.
    pub fn pause_task(&mut self, id: &str) -> (r: Result<(), String>)
        ensures
            is_move(
                old(self).views(),
                final(self).views(),
                id@,
                r,
                |t: TaskView| pause_fault(t),
                |t: TaskView| TaskView { status: TaskStatus::Paused, ..t },
            ),
    {
        let i: usize = match self.find(id) {
            Some(i) => i,
            None => {
                return Err("任务不存在".to_owned());
            },
        };
        assert(self.views()[i as int] == self.tasks@[i as int]@);
        let ghost before = self.tasks@;
        let status = self.tasks[i].status;
        if status.terminal() {
            return Err("任务已结束,无法暂停".to_owned());
        }
        if status == TaskStatus::Paused {
            return Err("任务已处于暂停状态".to_owned());
        }
        self.tasks[i].status = TaskStatus::Paused;
        proof {
            lemma_tasks_update(before, i as int, self.tasks@[i as int]);
        }
        Ok(())
    }

    /// Takes a frozen task up again where it was left.
    pub fn resume_task(&mut self, id: &str) -> (r: Result<(), String>)
        ensures
            is_move(
                old(self).views(),
                final(self).views(),
                id@,
                r,
                |t: TaskView| resume_fault(t),
                |t: TaskView| resumed(t),
            ),
    {
        let i: usize = match self.find(id) {
            Some(i) => i,
            None => {
                return Err("任务不存在".to_owned());
            },
        };
        assert(self.views()[i as int] == self.tasks@[i as int]@);
        let ghost before = self.tasks@;
        if self.tasks[i].status != TaskStatus::Paused {
            return Err("任务不在暂停状态".to_owned());
        }
        let status = if self.tasks[i].pending.is_some() {
            TaskStatus::AwaitingApproval
        } else {
            TaskStatus::Executing
        };
        self.tasks[i].status = status;
        proof {
            lemma_tasks_update(before, i as int, self.tasks@[i as int]);
        }
        Ok(())
    }

    /// Ends a task; says whether its sandbox is to go.
    pub fn stop_task(&mut self, id: &str, destroy_on_done: bool, now: i64) -> (r: Result<bool, String>)
        ensures
            is_move(
                old(self).views(),
                final(self).views(),
                id@,
                match r {
                    Ok(_) => Ok(()),
                    Err(e) => Err(e),
                },
                |t: TaskView| stop_fault(t),
                |t: TaskView| stopped(t, now),
            ),
            r matches Ok(destroy) ==> destroy == (destroy_on_done && old(self).views()[place_of(
                old(self).views(),
                id@,
            )->0].backend is Some),
    {
        let i: usize = match self.find(id) {
            Some(i) => i,
            None => {
                return Err("任务不存在".to_owned());
            },
        };
        assert(self.views()[i as int] == self.tasks@[i as int]@);
        let ghost before = self.tasks@;
        if self.tasks[i].status.terminal() {
            return Err("任务已结束".to_owned());
        }
        self.tasks[i].status = TaskStatus::Stopped;
        self.tasks[i].finished_ts = Some(now);
        self.tasks[i].approval_open = false;
        self.tasks[i].pending = None;
        proof {
            lemma_tasks_update(before, i as int, self.tasks@[i as int]);
            assert(self.tasks@ =~= before.update(i as int, self.tasks@[i as int]));
        }
        Ok(destroy_on_done && self.tasks[i].backend.is_some())
    }

    /// Forgets a task that is over.
    pub fn remove_task(&mut self, id: &str) -> (r: Result<(), String>)
        ensures
            match ended_from(old(self).views(), id@, 0) {
                Some(i) => r is Ok && final(self).views() == old(self).views().remove(i),
                None => (r matches Err(e) && e@ == "任务不存在或未结束"@) && final(self).views()
                    == old(self).views(),
            },
    {
        let mut i: usize = 0;
        while i < self.tasks.len()
            invariant
                i <= self.tasks@.len(),
                self.tasks@ == old(self).tasks@,
                ended_from(self.views(), id@, 0) == ended_from(self.views(), id@, i as int),
            decreases self.tasks@.len() - i,
        {
            assert(self.views()[i as int] == self.tasks@[i as int]@);
            if text::same(self.tasks[i].id.as_str(), id) && self.tasks[i].status.terminal() {
                proof {
                    assert(task_views(self.tasks@.remove(i as int)) =~= self.views().remove(i as int));
                }
                self.tasks.remove(i);
                return Ok(());
            }
            i += 1;
        }
        Err("任务不存在或未结束".to_owned())
    }

    /// The order in which the tasks are shown.
    pub fn order(&self) -> (r: Vec<usize>)
        ensures
            is_listing(r@.map_values(|i: usize| i as int), self.views()),
    {
        let ghost vs = self.views();
        let mut r: Vec<usize> = Vec::new();
        let mut n: usize = 0;
        while n < self.tasks.len()
            invariant
                n <= self.tasks@.len(),
                vs == self.views(),
                r@.len() == n,
                forall|i: int| 0 <= i < n ==> (#[trigger] r@[i]) < n,
                forall|i: int, j: int|
                    0 <= i < j < n ==> listed_before(vs, #[trigger] r@[i] as int, #[trigger] r@[j] as int),
            decreases self.tasks@.len() - n,
        {
            let mut k: usize = n;
            let ts: i64 = self.tasks[n].created_ts;
            while k > 0 && self.tasks[r[k - 1]].created_ts < ts
                invariant
                    k <= n < self.tasks@.len(),
                    vs == self.views(),
                    ts == vs[n as int].created_ts,
                    r@.len() == n,
                    forall|i: int| 0 <= i < n ==> (#[trigger] r@[i]) < n,
                    forall|i: int, j: int|
                        0 <= i < j < n ==> listed_before(vs, #[trigger] r@[i] as int, #[trigger] r@[j] as int),
                    forall|i: int| k <= i < n ==> vs[#[trigger] r@[i] as int].created_ts < ts,
                decreases k,
            {
                k -= 1;
            }
            proof {
                assert forall|i: int| 0 <= i < k implies vs[#[trigger] r@[i] as int].created_ts >= ts by {
                    let last = k - 1;
                    assert(vs[r@[last] as int].created_ts >= ts);
                    if i < last {
                        assert(listed_before(vs, r@[i] as int, r@[last] as int));
                    }
                }
            }
            let ghost before = r@;
            r.insert(k, n);
            proof {
                assert forall|i: int| 0 <= i < n + 1 implies (#[trigger] r@[i]) < n + 1 by {
                    if i < k {
                        assert(r@[i] == before[i]);
                    } else if i > k {
                        assert(r@[i] == before[i - 1]);
                    }
                }
                assert forall|i: int, j: int| 0 <= i < j < n + 1 implies listed_before(
                    vs,
                    #[trigger] r@[i] as int,
                    #[trigger] r@[j] as int,
                ) by {
                    let a = if i < k {
                        i
                    } else {
                        i - 1
                    };
                    let b = if j < k {
                        j
                    } else {
                        j - 1
                    };
                    if i == k {
                        assert(r@[j] == before[b]);
                    } else if j == k {
                        assert(r@[i] == before[a]);
                    } else {
                        assert(r@[i] == before[a]);
                        assert(r@[j] == before[b]);
                    }
                }
            }
            n += 1;
        }
        r
    }

    /// The tasks as they are shown, the youngest first.
    pub fn list(&self) -> (r: Vec<&AgentTask>)
        ensures
            exists|order: Seq<int>| #[trigger]
                is_listing(order, self.views()) && r@.len() == order.len() && forall|i: int|
                    0 <= i < r@.len() ==> *(#[trigger] r@[i]) == self.tasks@[order[i]],
    {
        let order = self.order();
        let ghost o = order@.map_values(|i: usize| i as int);
        let mut r: Vec<&AgentTask> = Vec::new();
        let mut i: usize = 0;
        while i < order.len()
            invariant
                i <= order@.len(),
                o == order@.map_values(|i: usize| i as int),
                is_listing(o, self.views()),
                r@.len() == i,
                forall|k: int| 0 <= k < i ==> *(#[trigger] r@[k]) == self.tasks@[o[k]],
            decreases order@.len() - i,
        {
            assert(o[i as int] == order@[i as int]);
            r.push(&self.tasks[order[i]]);
            i += 1;
        }
        r
    }

    /// The runner's next move on a task; a task that is gone, or was stopped, ends it.
    pub fn runner_next(&mut self, id: &str, stop: bool, paused: bool, now: i64, cfg: &AgentConfig) -> (r:
        RunnerStep)
        ensures
            match place_of(old(self).views(), id@) {
                Some(i) if !stop => {
                    let (t, step) = run_next(old(self).views()[i], paused, now, *cfg);
                    final(self).views() == old(self).views().update(i, t) && r == step
                },
                _ => final(self).views() == old(self).views() && r == RunnerStep::Break,
            },
    {
        if stop {
            return RunnerStep::Break;
        }
        let i: usize = match self.find(id) {
            Some(i) => i,
            None => {
                return RunnerStep::Break;
            },
        };
        assert(self.views()[i as int] == self.tasks@[i as int]@);
        let ghost before = self.tasks@;
        let step = self.tasks[i].run_next(paused, now, cfg);
        proof {
            lemma_tasks_update(before, i as int, self.tasks@[i as int]);
        }
        step
    }

    /// Whether a task is over, and whether its sandbox is to go.
    pub fn runner_end(&self, id: &str, destroy_on_done: bool) -> (r: (bool, bool))
        ensures
            match place_of(self.views(), id@) {
                Some(i) => r.0 == self.views()[i].status.is_terminal() && r.1 == (r.0 && destroy_on_done
                    && self.views()[i].backend is Some),
                None => r == (false, false),
            },
    {
        match self.find(id) {
            Some(i) => {
                assert(self.views()[i as int] == self.tasks@[i as int]@);
                let over = self.tasks[i].status.terminal();
                (over, over && destroy_on_done && self.tasks[i].backend.is_some())
            },
            None => (false, false),
        }
    }
}

pub open spec fn pause_fault(t: TaskView) -> Option<Seq<char>> {
    if t.status.is_terminal() {
        Some("任务已结束,无法暂停"@)
    } else if t.status == TaskStatus::Paused {
        Some("任务已处于暂停状态"@)
    } else {
        None
    }
}

pub open spec fn resume_fault(t: TaskView) -> Option<Seq<char>> {
    if t.status != TaskStatus::Paused {
        Some("任务不在暂停状态"@)
    } else {
        None
    }
}

/// A frozen task where it was left: before an approval, or at work.
pub open spec fn resumed(t: TaskView) -> TaskView {
    TaskView {
        status: if t.pending is Some {
            TaskStatus::AwaitingApproval
        } else {
            TaskStatus::Executing
        },
        ..t
    }
}

pub open spec fn stop_fault(t: TaskView) -> Option<Seq<char>> {
    if t.status.is_terminal() {
        Some("任务已结束"@)
    } else {
        None
    }
}

/// A task is moved on, unless there is none or something speaks against it.
pub open spec fn is_move(
    before: Seq<TaskView>,
    after: Seq<TaskView>,
    id: Seq<char>,
    r: Result<(), String>,
    fault: spec_fn(TaskView) -> Option<Seq<char>>,
    next: spec_fn(TaskView) -> TaskView,
) -> bool {
    match place_of(before, id) {
        None => (r matches Err(e) && e@ == "任务不存在"@) && after == before,
        Some(i) => match fault(before[i]) {
            Some(why) => (r matches Err(e) && e@ == why) && after == before,
            None => r is Ok && after == before.update(i, next(before[i])),
        },
    }
}

/// A decision reaches the step that it was made for, and no other.
pub open spec fn is_decision(
    before: Seq<TaskView>,
    after: Seq<TaskView>,
    id: Seq<char>,
    step_id: Seq<char>,
    d: ApprovalDecision,
    r: Result<Option<ApprovalDecision>, String>,
) -> bool {
    match place_of(before, id) {
        None => (r matches Err(e) && e@ == "任务不存在"@) && after == before,
        Some(i) => match before[i].pending {
            None => (r matches Err(e) && e@ == "当前没有待审批的步骤"@) && after == before,
            Some(p) => if p.step_id != step_id {
                (r matches Err(e) && e@ == "步骤 ID 不匹配"@) && after == before
            } else {
                r == Ok::<Option<ApprovalDecision>, String>(
                    if before[i].approval_open {
                        Some(d)
                    } else {
                        None
                    },
                ) && after == before.update(
                    i,
                    TaskView { approval_open: false, ..before[i] },
                )
            },
        },
    }
}

// ---------- laws ----------

/// Nothing is done without approval: a step is handed on to be taken only on the
/// user's yes, and it is the very step that waited.
pub proof fn law_only_approved_steps_run(t: TaskView, ev: ApprovalEvent)
    ensures
        decided(t, ev).1 matches ApprovalNextView::Execute(step) ==> {
            &&& ev == ApprovalEvent::Decided(ApprovalDecision::Approved)
            &&& t.pending == Some(step)
            &&& decided(t, ev).0.pending is None
        },
{
}

/// A sensitive step comes to wait for approval only in a task of an owner, an
/// administrator or a trusted account, and only under the name of a tool of the mode.
pub proof fn law_sensitive_steps_are_privileged(
    t: TaskView,
    out: tools::StepOutputView,
    step_id: Seq<char>,
    now: i64,
)
    requires
        t.pending is None,
    ensures
        stepped(t, out, step_id, now).0.pending matches Some(p) ==> {
            &&& tools::tool_of(t.mode, p.tool) is Some
            &&& p.sensitive == tools::tool_of(t.mode, p.tool)->0.sensitive
            &&& p.sensitive ==> tools::is_privileged(t.origin.role)
            &&& stepped(t, out, step_id, now).0.status == TaskStatus::AwaitingApproval
        },
{
}

/// The number of rounds is within bounds, with room for a step that waits.
pub open spec fn rounds_ok(t: TaskView) -> bool {
    &&& t.rounds <= t.max_rounds
    &&& t.pending is Some ==> t.rounds < t.max_rounds
}

/// A task never takes more rounds than it may: it starts within bounds; the model is
/// asked for a step only below the bound; and from there the step, the decision on it
/// and its result keep within bounds.
pub proof fn law_rounds_bounded(
    t: TaskView,
    out: tools::StepOutputView,
    step_id: Seq<char>,
    ev: ApprovalEvent,
    result: (Seq<char>, bool),
    now: i64,
)
    requires
        rounds_ok(t),
    ensures
        t.pending is None && t.rounds < t.max_rounds ==> rounds_ok(stepped(t, out, step_id, now).0),
        rounds_ok(decided(t, ev).0),
        decided(t, ev).1 matches ApprovalNextView::Execute(step) ==> rounds_ok(
            recorded(decided(t, ev).0, step, result, now),
        ) && recorded(decided(t, ev).0, step, result, now).rounds == t.rounds + 1,
        rounds_ok(stopped(t, now)),
        rounds_ok(resumed(t)),
{
}

/// A new task is within bounds.
pub proof fn law_fresh_rounds(
    cfg: AgentConfig,
    mode: AgentMode,
    goal: Seq<char>,
    origin: OriginView,
    id: Seq<char>,
    now: i64,
    backend: Option<Backend>,
)
    ensures
        rounds_ok(fresh(cfg, mode, goal, origin, id, now, backend)),
        fresh(cfg, mode, goal, origin, id, now, backend).pending is None,
{
}

/// A task that is over stays as it is: it can be neither paused nor taken up again nor
/// stopped.
pub proof fn law_over_is_over(t: TaskView)
    requires
        t.status.is_terminal(),
    ensures
        pause_fault(t) is Some,
        resume_fault(t) is Some,
        stop_fault(t) is Some,
{
}

/// A task at work, or before an approval, is after a pause exactly where it was.
pub proof fn law_pause_keeps_place(t: TaskView)
    requires
        (t.status == TaskStatus::Executing && t.pending is None) || (t.status
            == TaskStatus::AwaitingApproval && t.pending is Some),
    ensures
        pause_fault(t) is None,
        resume_fault(TaskView { status: TaskStatus::Paused, ..t }) is None,
        resumed(TaskView { status: TaskStatus::Paused, ..t }) == t,
{
}

/// Two operations on different tasks do not touch each other: whatever is done to the
/// task with one id, the others stay where and as they are.
pub proof fn law_tasks_are_apart(tasks: Seq<TaskView>, id: Seq<char>, other: Seq<char>, t: TaskView)
    requires
        place_of(tasks, id) is Some,
        t.id == id,
        other != id,
    ensures
        place_of(tasks.update(place_of(tasks, id)->0, t), other) == place_of(tasks, other),
        place_of(tasks, other) matches Some(k) ==> tasks.update(place_of(tasks, id)->0, t)[k]
            == tasks[k],
{
    lemma_place(tasks, id, 0);
    lemma_place(tasks, other, 0);
    lemma_place_apart(tasks, place_of(tasks, id)->0, other, t, 0);
}

proof fn lemma_place(tasks: Seq<TaskView>, id: Seq<char>, from: int)
    requires
        0 <= from,
    ensures
        place_from(tasks, id, from) matches Some(i) ==> from <= i < tasks.len() && tasks[i].id == id,
    decreases tasks.len() - from,
{
    if from < tasks.len() && tasks[from].id != id {
        lemma_place(tasks, id, from + 1);
    }
}

proof fn lemma_place_apart(tasks: Seq<TaskView>, i: int, other: Seq<char>, t: TaskView, from: int)
    requires
        0 <= i < tasks.len(),
        tasks[i].id != other,
        t.id != other,
        0 <= from,
    ensures
        place_from(tasks.update(i, t), other, from) == place_from(tasks, other, from),
    decreases tasks.len() - from,
{
    if from < tasks.len() {
        lemma_place_apart(tasks, i, other, t, from + 1);
    }
}

/// What is the same in two states of a task whatever happens to it: who it is for, what it
/// is about and what was done.
pub open spec fn same_task(a: TaskView, b: TaskView) -> bool {
    &&& a.id == b.id && a.mode == b.mode && a.goal == b.goal && a.origin == b.origin
    &&& a.created_ts == b.created_ts && a.max_rounds == b.max_rounds && a.backend == b.backend
    &&& a.sandbox_backend == b.sandbox_backend
}

/// A task ends as it ended: with the error, or the summary, that is told, at the present
/// moment, and with nothing left to approve; what was done is kept.
pub proof fn law_task_ends_as_it_ended(t: TaskView, word: Seq<char>, now: i64)
    ensures
        ({
            let f = failed(t, word, now);
            f.status == TaskStatus::Failed && f.error == Some(word) && f.summary == t.summary && f.finished_ts == Some(
                now,
            ) && f.pending is None && !f.approval_open && same_task(f, t) && f.steps == t.steps && f.rounds == t.rounds
        }),
        ({
            let f = finished(t, word, now);
            f.status == TaskStatus::Done && f.summary == Some(word) && f.error == t.error && f.finished_ts == Some(now)
                && f.pending is None && !f.approval_open && same_task(f, t) && f.steps == t.steps && f.rounds
                == t.rounds
        }),
        ({
            let f = stopped(t, now);
            f.status == TaskStatus::Stopped && f.error == t.error && f.summary == t.summary && f.finished_ts == Some(now)
                && f.pending is None && !f.approval_open && same_task(f, t) && f.steps == t.steps && f.rounds
                == t.rounds
        }),
        failed(t, word, now).status.is_terminal() && finished(t, word, now).status.is_terminal() && stopped(
            t,
            now,
        ).status.is_terminal(),
        t.status == TaskStatus::Executing || t.status == TaskStatus::AwaitingApproval || t.status == TaskStatus::Paused
            || t.status == TaskStatus::Selecting ==> !t.status.is_terminal(),
{
}

/// What a task comes to is told with its goal: the summary of one that was done, the error
/// of one that failed.
pub proof fn law_result_is_told(t: TaskView)
    ensures
        text::begins(result_of(t), t.goal + ": "@),
        t.status == TaskStatus::Done ==> (t.summary matches Some(s) ==> result_of(t) == t.goal + ": "@ + s),
        t.status == TaskStatus::Failed ==> (t.error matches Some(e) ==> text::ends(result_of(t), "失败: "@ + e)),
        t.status == TaskStatus::Stopped ==> text::ends(result_of(t), "已停止"@),
{
    let r = result_of(t);
    let head = t.goal + ": "@;
    let tail = r.skip(head.len() as int);
    assert(r.take(head.len() as int) =~= head);
    if t.status == TaskStatus::Failed && t.error is Some {
        let e = "失败: "@ + t.error->0;
        assert(r.skip(r.len() - e.len()) =~= e);
    }
    if t.status == TaskStatus::Stopped {
        assert(r.skip(r.len() - "已停止"@.len()) =~= "已停止"@);
    }
}

/// The opening tells the goal, who asked, in which role and where.
pub proof fn law_opening_tells_the_task(
    mode: AgentMode,
    goal: Seq<char>,
    origin: OriginView,
    sandbox_backend: Seq<char>,
)
    ensures
        ({
            let b = brief_of(mode, goal, origin, sandbox_backend);
            &&& text::begins(b, "【任务目标】\n"@ + goal)
            &&& text::includes(b, " 触发者 QQ: "@ + number::dec(origin.user_id as int) + "(角色:"@ + origin.role + ")"@)
            &&& (origin.kind == MsgKind::Group ==> (origin.group_id matches Some(g) ==> text::includes(
                b,
                "群 "@ + number::dec(g as int),
            )))
            &&& (origin.kind == MsgKind::Private ==> text::includes(b, "私聊"@))
            &&& mode == AgentMode::Sandbox ==> text::ends(b, sandbox_backend)
        }),
{
    let place = match origin.kind {
        MsgKind::Group => "群 "@ + number::dec(
            match origin.group_id {
                Some(g) => g as int,
                None => 0,
            },
        ),
        MsgKind::Private => "私聊"@,
    };
    let id = number::dec(origin.user_id as int);
    let head = "【任务目标】\n"@ + goal;
    let who = " 触发者 QQ: "@ + id + "(角色:"@ + origin.role + ")"@;
    let x = head + "\n\n"@ + "【触发场景】来源: "@ + place;
    lemma_tail_of_opening(x, " 触发者 QQ: "@, id, "(角色:"@, origin.role, ")"@);
    lemma_grouped(head, "\n\n"@, "【触发场景】来源: "@);
    let tail = "\n【沙箱】后端: "@;
    lemma_parts_stand(head, "\n\n"@ + "【触发场景】来源: "@, place, who, Seq::<char>::empty());
    lemma_nothing_behind(x + who);
    lemma_parts_stand(head, "\n\n"@ + "【触发场景】来源: "@, place, who, tail + sandbox_backend);
    lemma_grouped(x + who, tail, sandbox_backend);
    lemma_ends_in(x + who + tail, sandbox_backend);
}

proof fn lemma_tail_of_opening(x: Seq<char>, a: Seq<char>, b: Seq<char>, c: Seq<char>, d: Seq<char>, e: Seq<char>)
    ensures
        x + a + b + c + d + e == x + (a + b + c + d + e),
{
    lemma_grouped(x, a, b);
    lemma_grouped(x, a + b, c);
    lemma_grouped(x, a + b + c, d);
    lemma_grouped(x, a + b + c + d, e);
}

proof fn lemma_nothing_behind(x: Seq<char>)
    ensures
        x + Seq::<char>::empty() == x,
{
    assert(x + Seq::<char>::empty() =~= x);
}

proof fn lemma_ends_in(x: Seq<char>, y: Seq<char>)
    ensures
        text::ends(x + y, y),
{
    assert((x + y).skip((x + y).len() - y.len()) =~= y);
}

proof fn lemma_grouped(a: Seq<char>, b: Seq<char>, c: Seq<char>)
    ensures
        a + b + c == a + (b + c),
{
    assert(a + b + c =~= a + (b + c));
}

proof fn lemma_parts_stand(a: Seq<char>, b: Seq<char>, c: Seq<char>, d: Seq<char>, e: Seq<char>)
    ensures
        text::begins(a + b + c + d + e, a),
        text::includes(a + b + c + d + e, c),
        text::includes(a + b + c + d + e, d),
{
    let s = a + b + c + d + e;
    assert(s.take(a.len() as int) =~= a);
    let i: int = (a.len() + b.len()) as int;
    assert(s.subrange(i, i + c.len()) =~= c);
    assert(text::occurs_at(s, c, i));
    let j: int = i + c.len();
    assert(s.subrange(j, j + d.len()) =~= d);
    assert(text::occurs_at(s, d, j));
}

/// Of the names that a model gives, exactly the tools of the mode are known, each as often
/// as it was named.
pub proof fn law_known_names_are_sorted_out(mode: AgentMode, names: Seq<Seq<char>>)
    ensures
        forall|i: int|
            0 <= i < names.len() ==> (tools::tool_of(mode, #[trigger] names[i]) is Some ==> sorted_out(
                mode,
                names,
                true,
            ).contains(names[i])) && (tools::tool_of(mode, names[i]) is None ==> sorted_out(mode, names, false).contains(
                names[i],
            )),
        forall|k: int|
            0 <= k < sorted_out(mode, names, true).len() ==> tools::tool_of(
                mode,
                #[trigger] sorted_out(mode, names, true)[k],
            ) is Some && names.contains(sorted_out(mode, names, true)[k]),
        sorted_out(mode, names, true).len() + sorted_out(mode, names, false).len() == names.len(),
    decreases names.len(),
{
    if names.len() > 0 {
        let front = names.drop_last();
        law_known_names_are_sorted_out(mode, front);
        let yes = sorted_out(mode, names, true);
        let no = sorted_out(mode, names, false);
        let yes0 = sorted_out(mode, front, true);
        let no0 = sorted_out(mode, front, false);
        assert forall|i: int| 0 <= i < names.len() implies (tools::tool_of(mode, #[trigger] names[i]) is Some
            ==> yes.contains(names[i])) && (tools::tool_of(mode, names[i]) is None ==> no.contains(names[i])) by {
            if i < front.len() {
                assert(front[i] == names[i]);
                if tools::tool_of(mode, names[i]) is Some {
                    let k = choose|k: int| 0 <= k < yes0.len() && yes0[k] == names[i];
                    assert(yes[k] == names[i]);
                } else {
                    let k = choose|k: int| 0 <= k < no0.len() && no0[k] == names[i];
                    assert(no[k] == names[i]);
                }
            } else if tools::tool_of(mode, names[i]) is Some {
                assert(yes[yes.len() - 1] == names[i]);
            } else {
                assert(no[no.len() - 1] == names[i]);
            }
        }
        assert forall|k: int| 0 <= k < yes.len() implies tools::tool_of(mode, #[trigger] yes[k]) is Some
            && names.contains(yes[k]) by {
            if k < yes0.len() {
                assert(yes[k] == yes0[k]);
                let i = choose|i: int| 0 <= i < front.len() && front[i] == yes0[k];
                assert(names[i] == yes[k]);
            } else {
                assert(names[names.len() - 1] == yes[k]);
            }
        }
    }
}

/// A choice with a tool in it sets the helper to work with the tools it named, told of
/// their use; a choice without any ends the task with what was planned; one of unknown
/// names makes it fail; and one that cannot be read is asked for again.
pub proof fn law_choice_is_taken_up(t: TaskView, names: Seq<Seq<char>>, plan: Seq<char>, why: Seq<char>, now: i64)
    ensures
        ({
            let (u, next) = selected(t, Ok((names, plan)), now);
            &&& same_task(u, t) && u.steps == t.steps && u.rounds == t.rounds
            &&& names.len() == 0 ==> u.status == TaskStatus::Done && next == PhaseNext::Finish && (plan.len() > 0 ==> (
            u.summary matches Some(s) && text::ends(s, plan)))
            &&& names.len() > 0 && (forall|i: int|
                0 <= i < names.len() ==> tools::tool_of(t.mode, #[trigger] names[i]) is None) ==> u.status
                == TaskStatus::Failed && next == PhaseNext::Finish
            &&& (exists|i: int| 0 <= i < names.len() && tools::tool_of(t.mode, #[trigger] names[i]) is Some) ==> {
                &&& u.status == TaskStatus::Executing && next == PhaseNext::Continue
                &&& u.msgs.len() == t.msgs.len() + 1 && u.msgs.skip(1) == t.msgs
                &&& u.msgs[0].role == "system"@ && u.msgs[0].content == tools::exec_sys_of(t.mode, u.selected)
                &&& forall|i: int|
                    0 <= i < names.len() && tools::tool_of(t.mode, #[trigger] names[i]) is Some ==> u.selected.contains(
                        names[i],
                    )
            }
        }),
        ({
            let (u, next) = selected(t, Err(why), now);
            next == PhaseNext::Continue && u.status == t.status && same_task(u, t) && u.msgs.drop_last() == t.msgs
                && u.msgs.last().role == "user"@
        }),
{
    law_known_names_are_sorted_out(t.mode, names);
    let (u, next) = selected(t, Ok((names, plan)), now);
    let yes = sorted_out(t.mode, names, true);
    if names.len() == 0 {
        if plan.len() > 0 {
            let s = "任务无法完成: "@ + plan;
            assert(s.skip(s.len() - plan.len()) =~= plan);
        }
    } else {
        if (forall|i: int| 0 <= i < names.len() ==> tools::tool_of(t.mode, #[trigger] names[i]) is None) {
            if yes.len() > 0 {
                assert(tools::tool_of(t.mode, yes[0]) is Some);
                let i = choose|i: int| 0 <= i < names.len() && names[i] == yes[0];
                assert(tools::tool_of(t.mode, names[i]) is None);
            }
        }
        if exists|i: int| 0 <= i < names.len() && tools::tool_of(t.mode, #[trigger] names[i]) is Some {
            let i = choose|i: int| 0 <= i < names.len() && tools::tool_of(t.mode, #[trigger] names[i]) is Some;
            assert(yes.contains(names[i]));
            assert(yes.len() > 0);
            assert(u.msgs.skip(1) =~= t.msgs);
        }
    }
    let (v, n2) = selected(t, Err(why), now);
    assert(v.msgs.drop_last() =~= t.msgs);
}

/// A step that is allowed comes to wait as the helper asked for it, under its id and told
/// for what it is; one that is not leaves the task at work, with a word to the helper on
/// the tool it named.
pub proof fn law_step_waits_as_asked(
    t: TaskView,
    tool: Seq<char>,
    params: JsonView,
    note: Seq<char>,
    step_id: Seq<char>,
    now: i64,
)
    ensures
        ({
            let (u, next) = stepped(t, tools::StepOutputView::Call { tool, params, note }, step_id, now);
            &&& next == PhaseNext::Continue
            &&& same_task(u, t) && u.steps == t.steps && u.rounds == t.rounds
            &&& match tools::tool_of(t.mode, tool) {
                Some(def) if !def.sensitive || tools::is_privileged(t.origin.role) => {
                    &&& u.status == TaskStatus::AwaitingApproval
                    &&& u.selected.contains(tool)
                    &&& t.selected.contains(tool) ==> u.msgs == t.msgs
                    &&& match u.pending {
                        Some(p) => p.tool == tool && p.params == params && p.note == note && p.step_id == step_id
                            && p.sensitive == def.sensitive && (p.sensitive <==> p.permission != "常规操作"@),
                        None => false,
                    }
                },
                _ => {
                    &&& u.status == TaskStatus::Executing && u.pending == t.pending
                    &&& u.msgs.drop_last() == t.msgs && u.msgs.last().role == "user"@
                    &&& text::begins(u.msgs.last().content, "工具「"@ + tool + "」"@)
                },
            }
        }),
{
    reveal_strlit("常规操作");
    reveal_strlit("敏感操作 · 仅群主/管理员 · 请谨慎审批");
    reveal_strlit("」");
    reveal_strlit("」不存在,请从目录中选择");
    reveal_strlit("」为敏感操作,仅群主/管理员(或白名单)可用,请换方案或直接 done");
    assert("常规操作"@[0] == '常' && "敏感操作 · 仅群主/管理员 · 请谨慎审批"@[0] == '敏');
    let (u, next) = stepped(t, tools::StepOutputView::Call { tool, params, note }, step_id, now);
    let h = "工具「"@ + tool + "」"@;
    match tools::tool_of(t.mode, tool) {
        Some(def) if !def.sensitive || tools::is_privileged(t.origin.role) => {
            if !t.selected.contains(tool) {
                assert(u.selected[u.selected.len() - 1] == tool);
            }
        },
        _ => {
            assert(u.msgs.drop_last() =~= t.msgs);
            assert(u.msgs.last().content.take(h.len() as int) =~= h);
        },
    }
}

/// The helper's word that it is done ends the task with its summary; a word that cannot be
/// read is answered and changes nothing else.
pub proof fn law_done_is_done(t: TaskView, word: Seq<char>, step_id: Seq<char>, now: i64)
    ensures
        stepped(t, tools::StepOutputView::Done(word), step_id, now).0.summary == Some(word),
        stepped(t, tools::StepOutputView::Done(word), step_id, now).0.status == TaskStatus::Done,
        stepped(t, tools::StepOutputView::Done(word), step_id, now).1 == PhaseNext::Finish,
        ({
            let (u, next) = stepped(t, tools::StepOutputView::Invalid(word), step_id, now);
            next == PhaseNext::Continue && same_task(u, t) && u.steps == t.steps && u.pending == t.pending
                && u.msgs.len() == t.msgs.len() + 1 && text::includes(u.msgs.last().content, word)
        }),
{
    text::law_occurrence("输出无法解析("@, word, "),请严格只输出一个 JSON 对象"@);
}

/// A no takes the step away and tells the helper of it; a yes hands it on; a pause, or a
/// wait that took too long, keeps it for later; and after each nobody waits any more.
pub proof fn law_decision_is_carried_out(t: TaskView, step: PendingView)
    requires
        t.pending == Some(step),
    ensures
        forall|ev: ApprovalEvent| !(#[trigger] decided(t, ev)).0.approval_open && same_task(decided(t, ev).0, t)
            && decided(t, ev).0.steps == t.steps,
        decided(t, ApprovalEvent::Decided(ApprovalDecision::Approved)).1 == ApprovalNextView::Execute(step),
        ({
            let (u, next) = decided(t, ApprovalEvent::Decided(ApprovalDecision::Rejected));
            &&& u.pending is None && u.status == TaskStatus::Executing && next == ApprovalNextView::Go(
                PhaseNext::Continue,
            )
            &&& u.msgs.len() == t.msgs.len() + 1 && text::includes(u.msgs.last().content, step.tool)
        }),
        decided(t, ApprovalEvent::Lost) == decided(t, ApprovalEvent::Decided(ApprovalDecision::Rejected)),
        decided(t, ApprovalEvent::TimedOut).0.pending == Some(step) && decided(t, ApprovalEvent::TimedOut).0.status
            == TaskStatus::Paused && decided(t, ApprovalEvent::TimedOut).1 == ApprovalNextView::Go(PhaseNext::Paused),
        decided(t, ApprovalEvent::PauseChanged) == decided(t, ApprovalEvent::TimedOut),
        decided(t, ApprovalEvent::Stopped).1 == ApprovalNextView::Go(PhaseNext::Finish),
{
    text::law_occurrence(
        "用户拒绝了上一步操作(工具「"@,
        step.tool,
        "」)。请调整方案或直接输出 done 结束任务。"@,
    );
}

/// A step that was taken is put down with what came of it, and the helper is told: what it
/// called, and the result.
pub proof fn law_step_is_put_down(t: TaskView, step: PendingView, result: Seq<char>, ok: bool, ts: i64)
    ensures
        ({
            let u = recorded(t, step, (result, ok), ts);
            let n = u.msgs.len();
            &&& u.steps.drop_last() == t.steps
            &&& u.steps.last().tool == step.tool && u.steps.last().params == step.params
            &&& u.steps.last().result == result && u.steps.last().ok == ok && u.steps.last().ts == ts
            &&& t.rounds < u32::MAX ==> u.rounds == t.rounds + 1
            &&& u.status == TaskStatus::Executing && same_task(u, t)
            &&& n == t.msgs.len() + 2 && u.msgs.take(n - 2) == t.msgs
            &&& u.msgs[n - 2].role == "assistant"@ && u.msgs[n - 1].role == "user"@
            &&& text::begins(u.msgs[n - 2].content, "工具调用: "@ + step.tool)
            &&& text::includes(u.msgs[n - 2].content, json::json_text(step.params))
            &&& text::begins(u.msgs[n - 1].content, "工具「"@ + step.tool)
            &&& result.len() <= 2000 ==> text::ends(u.msgs[n - 1].content, result)
        }),
        forall|s: String| #[trigger] result_text(Ok(s)) == (s@, true),
        forall|s: String| #[trigger] result_text(Err(s)) == (s@, false),
{
    let u = recorded(t, step, (result, ok), ts);
    let n = u.msgs.len();
    assert(u.steps.drop_last() =~= t.steps);
    assert(u.msgs.take(n - 2) =~= t.msgs);
    let c = call_words(step);
    let h = "工具调用: "@ + step.tool;
    let p = json::json_text(step.params);
    let e = if step.note.len() == 0 {
        Seq::<char>::empty()
    } else {
        "(说明:"@ + step.note + ")"@
    };
    assert(c =~= (h + " 参数: "@) + p + e);
    text::law_occurrence(h + " 参数: "@, p, e);
    assert(c =~= h + (" 参数: "@ + p + e));
    text::law_occurrence(Seq::<char>::empty(), h, " 参数: "@ + p + e);
    let w = u.msgs[n - 1].content;
    let x = text::truncate_of(result, 2000);
    let g = "工具「"@ + step.tool;
    assert(w =~= g + ("」执行结果: "@ + x));
    text::law_occurrence(Seq::<char>::empty(), g, "」执行结果: "@ + x);
    assert(w =~= (g + "」执行结果: "@) + x);
    text::law_occurrence(g + "」执行结果: "@, x, Seq::<char>::empty());
}

/// Who is listed is trusted everywhere. Whoever is not may start a task in a private
/// conversation only where that is switched on, and in a group only by the role there,
/// which is asked of that group for that account.
pub proof fn law_right_goes_by_the_settings(cfg: AgentConfig, origin: OriginView)
    ensures
        ({
            let listed = text::list_of(cfg.owner_whitelist@).contains(number::dec(origin.user_id as int));
            &&& listed ==> requester_of(cfg, origin) == RequesterView::Granted("trusted"@)
            &&& !listed && origin.kind == MsgKind::Private ==> (requester_of(cfg, origin) is Granted <==> cfg.allow_private)
                && !(requester_of(cfg, origin) is AskRole)
            &&& !listed && origin.kind == MsgKind::Group ==> !(requester_of(cfg, origin) is Granted)
        }),
        match requester_of(cfg, origin) {
            RequesterView::Granted(role) => role == "trusted"@ || (role == "private"@ && origin.kind == MsgKind::Private),
            RequesterView::Refused(_) => true,
            RequesterView::AskRole(call) => {
                &&& origin.kind == MsgKind::Group
                &&& call.action == "get_group_member_info"@
                &&& call.params.contains(("user_id"@, PartView::Int(origin.user_id)))
                &&& match origin.group_id {
                    Some(g) => call.params.contains(("group_id"@, PartView::Int(g))),
                    None => false,
                }
            },
        },
{
    if let RequesterView::AskRole(call) = requester_of(cfg, origin) {
        assert(call.params[0] == ("group_id"@, PartView::Int(origin.group_id->0)));
        assert(call.params[1] == ("user_id"@, PartView::Int(origin.user_id)));
    }
}

/// A role may start a task exactly where it is listed, and the task has that very role;
/// whoever's role cannot be told is a plain member.
pub proof fn law_role_is_as_listed(r: Result<String, String>, allowed: Seq<char>, role: Seq<char>, answer: Result<Json, String>)
    requires
        is_role_result(r, allowed, role),
    ensures
        r is Ok <==> text::list_of(allowed).contains(role),
        r matches Ok(x) ==> x@ == role,
        answer is Err ==> role_in(answer) == "member"@,
        answer matches Ok(j) ==> (json::field(j@, "role"@) matches JsonView::Str(s) ==> role_in(answer) == s),
{
    if text::list_of(allowed).contains(role) {
        let k = choose|k: int| 0 <= k < text::list_of(allowed).len() && text::list_of(allowed)[k] == role;
        assert(text::list_of(allowed).len() > 0);
    }
}

/// A task is found by its id: the first that has it, and none only where there is none. One
/// that may be forgotten has the id and is over.
pub proof fn law_task_is_found_by_id(tasks: Seq<TaskView>, id: Seq<char>, from: int)
    requires
        0 <= from <= tasks.len(),
    ensures
        match place_from(tasks, id, from) {
            Some(i) => from <= i < tasks.len() && tasks[i].id == id && forall|k: int|
                from <= k < i ==> (#[trigger] tasks[k]).id != id,
            None => forall|k: int| from <= k < tasks.len() ==> (#[trigger] tasks[k]).id != id,
        },
        match ended_from(tasks, id, from) {
            Some(i) => from <= i < tasks.len() && tasks[i].id == id && tasks[i].status.is_terminal(),
            None => forall|k: int|
                from <= k < tasks.len() && (#[trigger] tasks[k]).id == id ==> !tasks[k].status.is_terminal(),
        },
    decreases tasks.len() - from,
{
    if from < tasks.len() {
        law_task_is_found_by_id(tasks, id, from + 1);
    }
}

/// A task is turned down exactly where its mode is switched off or its goal is blank.
pub proof fn law_tasks_need_a_mode_and_a_goal(cfg: AgentConfig, mode: AgentMode, goal: Seq<char>)
    ensures
        spawn_fault(cfg, mode, goal) is None <==> text::trim_of(goal).len() > 0 && (mode == AgentMode::QqOps
            ==> cfg.enable_qq_ops) && (mode == AgentMode::Sandbox ==> cfg.enable_sandbox),
{
}

/// A new task is what was asked for: its mode, its goal, where it comes from and its
/// sandbox; nothing has been done in it, and the helper is told of it first of all.
pub proof fn law_new_task_is_what_was_asked(
    cfg: AgentConfig,
    mode: AgentMode,
    goal: Seq<char>,
    origin: OriginView,
    id: Seq<char>,
    now: i64,
    backend: Option<Backend>,
)
    ensures
        ({
            let t = fresh(cfg, mode, goal, origin, id, now, backend);
            &&& t.id == id && t.mode == mode && t.goal == goal && t.origin == origin && t.created_ts == now && t.backend
                == backend
            &&& t.steps.len() == 0 && t.rounds == 0 && t.selected.len() == 0 && !t.approval_open
            &&& t.summary is None && t.error is None && t.finished_ts is None
            &&& cfg.max_rounds >= 1 ==> t.max_rounds == cfg.max_rounds
            &&& t.max_rounds >= 1
            &&& mode == AgentMode::Sandbox <==> t.status == TaskStatus::SandboxSetup
            &&& mode == AgentMode::QqOps <==> t.status == TaskStatus::Selecting
            &&& t.msgs.len() == 1 && t.msgs[0].role == "user"@ && t.msgs[0].content == brief_of(
                mode,
                goal,
                origin,
                t.sandbox_backend,
            )
            &&& backend matches Some(b) ==> t.sandbox_backend == b.name_of()
        }),
{
}

/// A sandbox comes with a task of that mode only; it is of the kind that is set, at the
/// given root and with the settings.
pub proof fn law_sandbox_is_as_set(cfg: AgentConfig, sandbox_cfg: SandboxConfig, mode: AgentMode, root: String)
    ensures
        mode == AgentMode::QqOps ==> backend_for(cfg, sandbox_cfg, mode, root) is None,
        mode == AgentMode::Sandbox ==> match backend_for(cfg, sandbox_cfg, mode, root) {
            Some(b) => {
                &&& b.root_of() == root@
                &&& b is Docker <==> cfg.sandbox_backend@ == "docker"@
                &&& b matches Backend::Docker(d) ==> d.cfg == sandbox_cfg
                &&& b matches Backend::Jail(j) ==> j.cfg == sandbox_cfg
            },
            None => false,
        },
{
}

/// A paused task rests and nothing else happens to it; one that has had its time fails; and
/// any other is taken on from the state it is in, unchanged.
pub proof fn law_runner_takes_a_task_on(t: TaskView, paused: bool, now: i64, cfg: AgentConfig)
    ensures
        task_limit(cfg) >= 60,
        cfg.task_timeout_secs >= 60 ==> task_limit(cfg) == cfg.task_timeout_secs,
        ({
            let (u, step) = run_next(t, paused, now, cfg);
            &&& same_task(u, t) && u.steps == t.steps && u.rounds == t.rounds && u.msgs == t.msgs
            &&& paused ==> step == RunnerStep::Break && u.pending == t.pending && (t.status.is_terminal() ==> u == t) && (
            !t.status.is_terminal() ==> u.status == TaskStatus::Paused)
            &&& !paused && cfg.task_timeout_secs <= i64::MAX && now - t.created_ts > cfg.task_timeout_secs && now
                - t.created_ts > 60 ==> u.status == TaskStatus::Failed && step == RunnerStep::Break
            &&& !paused && cfg.task_timeout_secs <= i64::MAX && (now - t.created_ts <= cfg.task_timeout_secs || now
                - t.created_ts <= 60) ==> u == t && (step == RunnerStep::Break <==> t.status.is_terminal() || t.status
                == TaskStatus::Paused) && (t.status == TaskStatus::Selecting <==> step == RunnerStep::Select) && (t.status
                == TaskStatus::SandboxSetup <==> step == RunnerStep::Setup) && (t.status == TaskStatus::SandboxActivate
                <==> step == RunnerStep::Activate)
        }),
{
}

/// A move that succeeds moves the task with the id, and no other; one that fails moves
/// nothing.
pub proof fn law_move_is_of_one_task(
    before: Seq<TaskView>,
    after: Seq<TaskView>,
    id: Seq<char>,
    r: Result<(), String>,
    fault: spec_fn(TaskView) -> Option<Seq<char>>,
    next: spec_fn(TaskView) -> TaskView,
)
    requires
        is_move(before, after, id, r, fault, next),
    ensures
        r is Err ==> after == before,
        after.len() == before.len(),
        r is Ok ==> exists|i: int|
            #![trigger before[i]]
            0 <= i < before.len() && before[i].id == id && fault(before[i]) is None && after[i] == next(before[i])
                && forall|k: int| 0 <= k < before.len() && k != i ==> #[trigger] after[k] == before[k],
        (forall|k: int| 0 <= k < before.len() ==> (#[trigger] before[k]).id != id) ==> r is Err,
{
    law_task_is_found_by_id(before, id, 0);
    if let Some(i) = place_of(before, id) {
        assert(before[i].id == id);
    }
}

/// Pausing, taking up and stopping do what they are for: a task that goes on can be paused
/// and stopped, a paused one goes on from where it was, and only that one.
pub proof fn law_pausing_and_stopping(t: TaskView, now: i64)
    ensures
        pause_fault(t) is None <==> !t.status.is_terminal() && t.status != TaskStatus::Paused,
        stop_fault(t) is None <==> !t.status.is_terminal(),
        resume_fault(t) is None <==> t.status == TaskStatus::Paused,
        t.pending is Some <==> resumed(t).status == TaskStatus::AwaitingApproval,
        t.pending is None <==> resumed(t).status == TaskStatus::Executing,
        same_task(resumed(t), t) && resumed(t).pending == t.pending && resumed(t).msgs == t.msgs && resumed(t).steps
            == t.steps,
{
}

/// A decision counts only for the step that it names and only where it waits, and it is the
/// one that was made.
pub proof fn law_decision_is_for_its_step(
    before: Seq<TaskView>,
    after: Seq<TaskView>,
    id: Seq<char>,
    step_id: Seq<char>,
    d: ApprovalDecision,
    r: Result<Option<ApprovalDecision>, String>,
)
    requires
        is_decision(before, after, id, step_id, d, r),
    ensures
        r is Err ==> after == before,
        r matches Ok(x) ==> exists|i: int|
            #![trigger before[i]]
            0 <= i < before.len() && before[i].id == id && (before[i].pending matches Some(p) && p.step_id == step_id) && (
            x == (if before[i].approval_open {
                Some(d)
            } else {
                None
            })) && !after[i].approval_open && after[i].pending == before[i].pending,
{
    law_task_is_found_by_id(before, id, 0);
}

/// No two states of a task are told by one label.
pub proof fn law_task_states_are_told_apart(a: TaskStatus, b: TaskStatus)
    requires
        a != b,
    ensures
        a.label_of() != b.label_of(),
{
    reveal_strlit("沙箱搭建中");
    reveal_strlit("沙箱激活中");
    reveal_strlit("工具选择中");
    reveal_strlit("等待审批");
    reveal_strlit("执行中");
    reveal_strlit("已暂停");
    reveal_strlit("已完成");
    reveal_strlit("失败");
    reveal_strlit("已停止");
    assert("沙箱搭建中"@[0] == '沙' && "沙箱搭建中"@[2] == '搭');
    assert("沙箱激活中"@[0] == '沙' && "沙箱激活中"@[2] == '激');
    assert("工具选择中"@[0] == '工' && "等待审批"@[0] == '等' && "执行中"@[0] == '执' && "失败"@[0] == '失');
    assert("已暂停"@[0] == '已' && "已暂停"@[1] == '暂');
    assert("已完成"@[0] == '已' && "已完成"@[1] == '完');
    assert("已停止"@[0] == '已' && "已停止"@[1] == '停');
}

/// The youngest task is shown first, every task once.
pub proof fn law_youngest_is_first(order: Seq<int>, tasks: Seq<TaskView>, k: int)
    requires
        is_listing(order, tasks),
        0 < k < order.len(),
    ensures
        tasks[order[0]].created_ts >= tasks[order[k]].created_ts,
        order[0] != order[k],
        order.len() == tasks.len(),
{
    assert(listed_before(tasks, order[0], order[k]));
}

/// Tasks are shown by age, and those of one age in the order in which they were started.
pub proof fn law_tasks_are_shown_by_age(order: Seq<int>, tasks: Seq<TaskView>, i: int, j: int)
    requires
        is_listing(order, tasks),
        0 <= i < j < order.len(),
    ensures
        tasks[order[i]].created_ts >= tasks[order[j]].created_ts,
        tasks[order[i]].created_ts == tasks[order[j]].created_ts ==> order[i] < order[j],
{
    assert(listed_before(tasks, order[i], order[j]));
}

} // verus!
