//! What is sent to the model, and how it is kept within its budget.
//!
//! The order of a request is made for a prefix cache: persona and guides, the summary,
//! the memory (in front of the history or behind it), the history, what was said lately,
//! the state of the helper, the results of its tasks, and the question. Only the front of the history is ever cut; what stays is the same
//! to the byte.

use vstd::prelude::*;
use vstd::string::*;
use crate::agent::tools;
use crate::clock;
use crate::config::{AgentConfig, TrailConfig};
use crate::estimate;
use crate::events;
use crate::lists;
use crate::llm;
use crate::llm::{ApiMessage, ApiMessageView};
use crate::memory;
use crate::napcat::MsgKind;
use crate::number;
use crate::runtime;
use crate::runtime::TrailLine;
use crate::session;
use crate::session::{HistoryMsg, HistoryView, Session, SessionView};
use crate::text;

verus! {

// ---------- who and when ----------

/// Who said something; nothing where that is not known.
pub open spec fn speaker_of(sender: i64) -> Seq<char> {
    if sender > 0 {
        "[QQ"@ + number::dec(sender as int) + "] "@
    } else {
        Seq::<char>::empty()
    }
}

pub fn speaker_prefix(sender: i64) -> (r: String)
    ensures
        r@ == speaker_of(sender),
{
    if sender > 0 {
        let mut s = "[QQ".to_owned();
        s.append(number::i64_text(sender).as_str());
        s.append("] ");
        s
    } else {
        let s = String::new();
        assert(s@ =~= Seq::<char>::empty());
        s
    }
}

/// `s` may be a moment in words, `[MM-DD HH:MM] ` with a space behind it in the zone of
/// the machine; there are none for a moment beyond the calendar.
pub open spec fn is_label_at(s: Seq<char>, ts: i64) -> bool {
    if clock::in_calendar(ts as int) {
        clock::is_minute_at(s, ts)
    } else {
        s.len() == 0
    }
}

/// `s` may be the moment of a message in words; an old record has none.
pub open spec fn is_history_label(s: Seq<char>, ts: i64) -> bool {
    if ts <= 0 {
        s.len() == 0
    } else {
        is_label_at(s, ts)
    }
}

/// A moment in words; nothing for a moment beyond the calendar.
pub fn ts_label(ts: i64) -> (r: String)
    ensures
        is_label_at(r@, ts),
{
    match clock::local_minute(ts) {
        Some(s) => s,
        None => String::new(),
    }
}

/// When and by whom something was said; old records do not know when.
pub fn history_prefix(ts: i64, sender: i64) -> (r: String)
    ensures
        exists|label: Seq<char>|
            r@ == #[trigger] prefix_of(label, sender) && is_history_label(label, ts),
{
    let label = history_label(ts);
    let mut s = label.clone();
    s.append(speaker_prefix(sender).as_str());
    assert(s@ == prefix_of(label@, sender));
    s
}

pub open spec fn prefix_of(label: Seq<char>, sender: i64) -> Seq<char> {
    label + speaker_of(sender)
}

/// The moment of a message in words; nothing for an old record.
pub fn history_label(ts: i64) -> (r: String)
    ensures
        is_history_label(r@, ts),
{
    if ts <= 0 {
        String::new()
    } else {
        ts_label(ts)
    }
}

/// The moments of some messages in words.
pub fn history_labels(history: &Vec<HistoryMsg>) -> (r: Vec<String>)
    ensures
        r@.len() == history@.len(),
        forall|i: int|
            0 <= i < r@.len() ==> is_history_label((#[trigger] r@[i])@, history@[i].ts),
{
    let mut r: Vec<String> = Vec::new();
    let mut i: usize = 0;
    while i < history.len()
        invariant
            i <= history@.len(),
            r@.len() == i,
            forall|k: int|
                0 <= k < i ==> is_history_label((#[trigger] r@[k])@, history@[k].ts),
        decreases history@.len() - i,
    {
        r.push(history_label(history[i].ts));
        i += 1;
    }
    r
}

// ---------- the budget ----------

/// The settings that the budget depends on.
#[derive(Debug, Clone)]
pub struct BudgetConfig {
    pub context_tokens: u32,
    pub reserve_tokens: u32,
    pub summarize: bool,
    /// Where the memory stands: `front` or `back`.
    pub placement: String,
    /// With the memory behind: the estimate beyond which the history is folded; zero
    /// for never.
    pub history_target_tokens: u32,
    /// With the memory in front: the same.
    pub recent_max_tokens: u32,
    /// With the memory in front: how many messages stay at least.
    pub recent_keep_msgs: u32,
}

/// The difference, zero where it would be less.
pub open spec fn less(a: int, b: int) -> int {
    if a < b {
        0
    } else {
        a - b
    }
}

fn subtract(a: u64, b: u64) -> (r: u64)
    ensures
        r == less(a as int, b as int),
{
    if a < b {
        0
    } else {
        a - b
    }
}

/// What is left for summary and history.
pub open spec fn input_budget_of(cfg: BudgetConfig, prompt: u64, mem: u32, user: u32) -> int {
    less(less(cfg.context_tokens as int, cfg.reserve_tokens as int), prompt + mem + user)
}

/// What is left for summary and history when persona and guides, the memory and the
/// question have been counted.
pub fn input_budget(cfg: &BudgetConfig, prompt: u64, mem: u32, user: u32) -> (r: u64)
    ensures
        r == input_budget_of(*cfg, prompt, mem, user),
{
    let budget: u64 = if cfg.context_tokens < cfg.reserve_tokens {
        0
    } else {
        (cfg.context_tokens - cfg.reserve_tokens) as u64
    };
    let used: u128 = prompt as u128 + mem as u128 + user as u128;
    if (budget as u128) < used {
        0
    } else {
        (budget as u128 - used) as u64
    }
}

/// The estimates of the messages.
pub open spec fn tokens_of(history: Seq<HistoryView>) -> Seq<u32> {
    history.map_values(|h: HistoryView| h.tokens)
}

fn token_list(history: &Vec<HistoryMsg>) -> (r: Vec<u32>)
    ensures
        r@ == tokens_of(session::history_views(history@)),
{
    let mut r: Vec<u32> = Vec::new();
    let mut i: usize = 0;
    while i < history.len()
        invariant
            i <= history@.len(),
            r@.len() == i,
            forall|k: int| 0 <= k < i ==> #[trigger] r@[k] == history@[k].tokens,
        decreases history@.len() - i,
    {
        r.push(history[i].tokens);
        i += 1;
    }
    assert(r@ =~= tokens_of(session::history_views(history@)));
    r
}

/// A summary that would leave no room for the history is given up.
pub open spec fn summary_settled(s: SessionView, input_budget: u64) -> SessionView {
    if input_budget <= s.summary_tokens && s.summary is Some {
        SessionView { summary: None, summary_tokens: 0, ..s }
    } else {
        s
    }
}

/// What the summary takes of the budget for folding.
pub open spec fn summary_share(s: SessionView, input_budget: u64) -> int {
    if input_budget <= s.summary_tokens && s.summary is Some {
        0
    } else {
        s.summary_tokens as int
    }
}

/// How many of the oldest messages are to be folded into the summary. With the memory in
/// front, beyond the limit all but those that are kept, so that the history grows anew
/// from these; with the memory behind, no more than the limit asks for, but two at least.
pub open spec fn fold_count_of(tokens: Seq<u32>, cfg: BudgetConfig, input_budget: u64, share: int) -> int {
    if !cfg.summarize || tokens.len() <= 2 {
        0
    } else if cfg.placement@ == "front"@ {
        let keep = if cfg.recent_keep_msgs < 1 {
            1
        } else {
            cfg.recent_keep_msgs as int
        };
        if estimate::total(tokens) > cfg.recent_max_tokens {
            less(tokens.len() as int, keep)
        } else {
            0
        }
    } else if cfg.history_target_tokens > 0 {
        let room = less(input_budget as int, share);
        let limit = lists::capped(room, cfg.history_target_tokens as int);
        if estimate::total(tokens) > limit {
            let d = estimate::drop_from(tokens, limit, 1, 0);
            if d < 2 {
                2
            } else {
                d
            }
        } else {
            0
        }
    } else {
        0
    }
}

/// A request to fold messages into the summary.
pub struct FoldJob {
    pub old_summary: String,
    pub messages: Vec<ApiMessage>,
}

/// A message as it is folded: with who said it.
pub open spec fn folded_msg(h: HistoryView) -> ApiMessageView {
    ApiMessageView {
        role: h.role,
        content: if h.role == "user"@ {
            speaker_of(h.sender) + h.text
        } else {
            h.text
        },
    }
}

pub open spec fn folded_msgs(history: Seq<HistoryView>) -> Seq<ApiMessageView> {
    history.map_values(|h: HistoryView| folded_msg(h))
}

/// What came of a fold.
pub enum FoldOutcome {
    Summary { text: String, tokens: u32 },
    Failed,
    NoModel,
}

/// The session after a fold. One that fails costs the summary, too.
pub open spec fn fold_settled(s: SessionView, o: FoldOutcome) -> SessionView {
    match o {
        FoldOutcome::Summary { text, tokens } => SessionView {
            summary: Some(text@),
            summary_tokens: tokens,
            ..s
        },
        FoldOutcome::Failed => SessionView { summary: None, summary_tokens: 0, ..s },
        FoldOutcome::NoModel => s,
    }
}

/// How many of the oldest messages have to go for the request to fit.
pub open spec fn cut_count(s: SessionView, input_budget: u64) -> int {
    estimate::drop_from(
        tokens_of(s.history),
        less(input_budget as int, s.summary_tokens as int),
        0,
        0,
    )
}

impl Session {
    /// Gives up a summary that leaves no room for the history; says whether it did, and
    /// what the summary takes of the budget.
    pub fn settle_summary(&mut self, input_budget: u64) -> (r: (bool, u64))
        ensures
            final(self)@ == summary_settled(old(self)@, input_budget),
            r.0 == (input_budget <= old(self)@.summary_tokens && old(self)@.summary is Some),
            r.1 == summary_share(old(self)@, input_budget),
    {
        if input_budget <= self.summary_tokens as u64 && self.summary.is_some() {
            self.summary = None;
            self.summary_tokens = 0;
            (true, 0)
        } else {
            (false, self.summary_tokens as u64)
        }
    }

    /// How many of the oldest messages are to be folded.
    pub fn fold_count(&self, cfg: &BudgetConfig, input_budget: u64, share: u64) -> (r: usize)
        ensures
            r == fold_count_of(tokens_of(self@.history), *cfg, input_budget, share as int),
            r <= self@.history.len(),
    {
        let tokens = token_list(&self.history);
        assert(tokens@.len() == self@.history.len());
        if !cfg.summarize || tokens.len() <= 2 {
            return 0;
        }
        if text::same(cfg.placement.as_str(), "front") {
            let keep: usize = if cfg.recent_keep_msgs < 1 {
                1
            } else {
                cfg.recent_keep_msgs as usize
            };
            let total: u128 = session::sum_tokens(&self.history);
            proof {
                lemma_totals(self@.history);
            }
            return if total > cfg.recent_max_tokens as u128 && tokens.len() > keep {
                tokens.len() - keep
            } else {
                0
            };
        }
        if cfg.history_target_tokens > 0 {
            let room: u64 = subtract(input_budget, share);
            let limit: u64 = if room > cfg.history_target_tokens as u64 {
                cfg.history_target_tokens as u64
            } else {
                room
            };
            let total: u128 = session::sum_tokens(&self.history);
            proof {
                lemma_totals(self@.history);
            }
            if total > limit as u128 {
                let d: usize = estimate::compute_drop(tokens.as_slice(), limit, 1);
                return if d < 2 {
                    2
                } else {
                    d
                };
            }
        }
        0
    }

    /// Takes the oldest messages out of the history, to be folded.
    pub fn take_fold(&mut self, n: usize) -> (r: FoldJob)
        requires
            n <= old(self)@.history.len(),
        ensures
            final(self)@ == (SessionView {
                history: old(self)@.history.skip(n as int),
                ..old(self)@
            }),
            llm::msgs_view(r.messages@) == folded_msgs(old(self)@.history.take(n as int)),
            r.old_summary@ == match old(self)@.summary {
                Some(s) => s,
                None => Seq::<char>::empty(),
            },
    {
        let ghost all = self@.history;
        let mut messages: Vec<ApiMessage> = Vec::new();
        let mut i: usize = 0;
        assert(self.history@.len() == all.len());
        assert(llm::msgs_view(messages@) =~= folded_msgs(all.take(0)));
        while i < n
            invariant
                i <= n <= self.history@.len(),
                all == session::history_views(self.history@),
                llm::msgs_view(messages@) == folded_msgs(all.take(i as int)),
            decreases n - i,
        {
            let h = &self.history[i];
            let ghost before = messages@;
            let content = if text::same(h.role.as_str(), "user") {
                let mut c = speaker_prefix(h.sender);
                c.append(h.text.as_str());
                c
            } else {
                h.text.clone()
            };
            let m = ApiMessage { role: h.role.clone(), content };
            proof {
                assert(m@ == folded_msg(all[i as int]));
                assert(llm::msgs_view(before.push(m)) =~= llm::msgs_view(before).push(m@));
                assert(folded_msgs(all.take(i + 1)) =~= folded_msgs(all.take(i as int)).push(
                    folded_msg(all[i as int]),
                ));
            }
            messages.push(m);
            i += 1;
        }
        let old_summary = match &self.summary {
            Some(s) => s.clone(),
            None => {
                let s = String::new();
                assert(s@ =~= Seq::<char>::empty());
                s
            },
        };
        let ghost before = self.history@;
        lists::drop_first(&mut self.history, n);
        assert(session::history_views(self.history@) =~= all.skip(n as int));
        FoldJob { old_summary, messages }
    }

    /// Takes note of what came of a fold; the session is to be written either way.
    pub fn settle_fold(&mut self, o: FoldOutcome)
        ensures
            final(self)@ == fold_settled(old(self)@, o),
    {
        match o {
            FoldOutcome::Summary { text, tokens } => {
                self.summary = Some(text);
                self.summary_tokens = tokens;
            },
            FoldOutcome::Failed => {
                self.summary = None;
                self.summary_tokens = 0;
            },
            FoldOutcome::NoModel => {},
        }
    }

    /// Cuts the oldest messages until the rest fits; says how many went.
    pub fn cut_head(&mut self, input_budget: u64) -> (r: usize)
        ensures
            r == cut_count(old(self)@, input_budget),
            final(self)@ == (SessionView {
                history: old(self)@.history.skip(r as int),
                ..old(self)@
            }),
    {
        let ghost all = self@.history;
        let tokens = token_list(&self.history);
        let room: u64 = subtract(input_budget, self.summary_tokens as u64);
        let n: usize = estimate::compute_drop(tokens.as_slice(), room, 0);
        assert(tokens@.len() == self.history@.len());
        lists::drop_first(&mut self.history, n);
        assert(session::history_views(self.history@) =~= all.skip(n as int));
        n
    }
}

/// A session on its way into the budget: the summary settled, and what is to be folded
/// taken out.
pub struct TrimPlan {
    /// What is left for summary and history.
    pub budget: u64,
    /// The session has changed and is to be written.
    pub rewrite: bool,
    pub fold: Option<FoldJob>,
}

/// What is to be folded of a session whose summary is settled.
pub open spec fn fold_due(s: SessionView, cfg: BudgetConfig, budget: u64) -> int {
    fold_count_of(tokens_of(s.history), cfg, budget, summary_share(s, budget))
}

/// The session after the first half of the trim.
pub open spec fn trim_begun(s: SessionView, cfg: BudgetConfig, budget: u64) -> SessionView {
    let t = summary_settled(s, budget);
    SessionView { history: t.history.skip(fold_due(s, cfg, budget)), ..t }
}

/// The plan asks for the fold that is due.
pub open spec fn is_fold_of(job: Option<FoldJob>, s: SessionView, n: int, budget: u64) -> bool {
    match job {
        Some(j) => n > 0 && llm::msgs_view(j.messages@) == folded_msgs(s.history.take(n))
            && j.old_summary@ == match summary_settled(s, budget).summary {
            Some(t) => t,
            None => Seq::<char>::empty(),
        },
        None => n == 0,
    }
}

/// The session after the second half of the trim, `o` being what came of the fold.
pub open spec fn trim_ended(s: SessionView, budget: u64, o: Option<FoldOutcome>) -> SessionView {
    let t = match o {
        Some(x) => fold_settled(s, x),
        None => s,
    };
    SessionView { history: t.history.skip(cut_count(t, budget)), ..t }
}

impl Session {
    /// Begins to bring the session within its budget, `prompt`, `mem` and `user` being
    /// the estimates of persona and guides, of the memory and of the question.
    pub fn begin_trim(&mut self, cfg: &BudgetConfig, prompt: u64, mem: u32, user: u32) -> (r: TrimPlan)
        ensures
            r.budget == input_budget_of(*cfg, prompt, mem, user),
            final(self)@ == trim_begun(old(self)@, *cfg, r.budget),
            is_fold_of(
                r.fold,
                old(self)@,
                fold_due(old(self)@, *cfg, r.budget),
                r.budget,
            ),
            r.rewrite == (r.budget <= old(self)@.summary_tokens && old(self)@.summary is Some),
    {
        let budget: u64 = input_budget(cfg, prompt, mem, user);
        let (rewrite, share) = self.settle_summary(budget);
        let n: usize = self.fold_count(cfg, budget, share);
        if n > 0 {
            let job = self.take_fold(n);
            TrimPlan { budget, rewrite, fold: Some(job) }
        } else {
            assert(self@.history.skip(0) =~= self@.history);
            TrimPlan { budget, rewrite, fold: None }
        }
    }

    /// Ends it: takes note of the fold, if there was one, and cuts what is still too
    /// much; says how many messages went.
    pub fn end_trim(&mut self, budget: u64, o: Option<FoldOutcome>) -> (r: usize)
        ensures
            final(self)@ == trim_ended(old(self)@, budget, o),
            r == cut_count(
                match o {
                    Some(x) => fold_settled(old(self)@, x),
                    None => old(self)@,
                },
                budget,
            ),
    {
        match o {
            Some(x) => {
                self.settle_fold(x);
            },
            None => {},
        }
        self.cut_head(budget)
    }
}

proof fn lemma_totals(history: Seq<HistoryView>)
    ensures
        estimate::total(tokens_of(history)) == session::history_total(history),
    decreases history.len(),
{
    if history.len() > 0 {
        lemma_totals(history.drop_last());
        let t = tokens_of(history);
        assert(tokens_of(history.drop_last()) =~= t.drop_last());
        estimate::lemma_total_last(t);
        assert(t.last() == history.last().tokens);
    }
}

// ---------- the request ----------

/// A message of the history as it is sent: with when and by whom it was said.
pub open spec fn sent_msg(h: HistoryView, label: Seq<char>) -> ApiMessageView {
    ApiMessageView {
        role: h.role,
        content: if h.role == "user"@ {
            prefix_of(label, h.sender) + h.text
        } else {
            h.text
        },
    }
}

pub open spec fn sent_msgs(history: Seq<HistoryView>, labels: Seq<Seq<char>>) -> Seq<ApiMessageView> {
    Seq::new(history.len(), |i: int| sent_msg(history[i], labels[i]))
}

/// Nothing, or one message.
pub open spec fn perhaps(m: Option<ApiMessageView>) -> Seq<ApiMessageView> {
    match m {
        Some(x) => seq![x],
        None => Seq::<ApiMessageView>::empty(),
    }
}

/// The first messages of every request.
pub open spec fn opening(prompt: Seq<char>) -> Seq<ApiMessageView> {
    seq![
        llm::msg_of("system"@, prompt),
        llm::msg_of("system"@, events::memory_guide_of()),
        llm::msg_of("system"@, events::thinking_guide_of()),
    ]
}

pub open spec fn summary_msg(s: SessionView) -> Option<ApiMessageView> {
    match s.summary {
        Some(t) => Some(llm::msg_of("system"@, "[先前对话摘要]\n"@ + t)),
        None => None,
    }
}

pub open spec fn memory_msg(s: SessionView, enabled: bool) -> Option<ApiMessageView> {
    if enabled && s.memory.len() > 0 {
        Some(llm::msg_of("system"@, memory::system_text_of(s.memory)))
    } else {
        None
    }
}

/// The part of a request that comes before the history.
pub open spec fn preamble(s: SessionView, prompt: Seq<char>, memory_on: bool, back: bool) -> Seq<ApiMessageView> {
    opening(prompt) + perhaps(summary_msg(s)) + (if back {
        Seq::<ApiMessageView>::empty()
    } else {
        perhaps(memory_msg(s, memory_on))
    })
}

/// A whole request.
pub open spec fn request_of(
    s: SessionView,
    prompt: Seq<char>,
    memory_on: bool,
    back: bool,
    labels: Seq<Seq<char>>,
    trail: Option<Seq<char>>,
    question: Seq<char>,
) -> Seq<ApiMessageView> {
    preamble(s, prompt, memory_on, back) + sent_msgs(s.history, labels) + (if back {
        perhaps(memory_msg(s, memory_on))
    } else {
        Seq::<ApiMessageView>::empty()
    }) + perhaps(
        match trail {
            Some(t) => Some(llm::msg_of("user"@, t)),
            None => None,
        },
    ) + seq![llm::msg_of("user"@, question)]
}

/// The memory stands behind the history.
pub open spec fn is_behind(placement: Seq<char>) -> bool {
    placement == "back"@
}

fn push_msg(msgs: &mut Vec<ApiMessage>, m: ApiMessage)
    ensures
        llm::msgs_view(final(msgs)@) == llm::msgs_view(old(msgs)@) + seq![m@],
{
    let ghost before = msgs@;
    msgs.push(m);
    assert(llm::msgs_view(msgs@) =~= llm::msgs_view(before) + seq![m@]);
}

fn push_memory(msgs: &mut Vec<ApiMessage>, s: &Session, memory_on: bool)
    ensures
        llm::msgs_view(final(msgs)@) == llm::msgs_view(old(msgs)@) + perhaps(memory_msg(s@, memory_on)),
{
    assert(s@.memory.len() == s.memory.entries@.len());
    if memory_on && s.memory.entries.len() > 0 {
        push_msg(msgs, llm::message("system", s.memory.system_text()));
    } else {
        assert(llm::msgs_view(msgs@) + Seq::<ApiMessageView>::empty() =~= llm::msgs_view(msgs@));
    }
}

/// Puts a request together. The labels say when the messages of the history were said;
/// `question` is the question with all that stands before it.
pub fn build_messages(
    s: &Session,
    prompt: &str,
    memory_on: bool,
    placement: &str,
    labels: &Vec<String>,
    trail: Option<String>,
    question: String,
) -> (r: Vec<ApiMessage>)
    requires
        labels@.len() == s@.history.len(),
    ensures
        llm::msgs_view(r@) == request_of(
            s@,
            prompt@,
            memory_on,
            is_behind(placement@),
            text::views(labels@),
            text::opt_view(trail),
            question@,
        ),
{
    let back = text::same(placement, "back");
    let ghost lv = text::views(labels@);
    let mut msgs: Vec<ApiMessage> = vec![
        llm::message("system", prompt.to_owned()),
        llm::message("system", events::memory_guide().to_owned()),
        llm::message("system", events::thinking_guide().to_owned()),
    ];
    assert(llm::msgs_view(msgs@) =~= opening(prompt@));
    if let Some(t) = &s.summary {
        let mut c = "[先前对话摘要]\n".to_owned();
        c.append(t.as_str());
        push_msg(&mut msgs, llm::message("system", c));
    } else {
        assert(opening(prompt@) + Seq::<ApiMessageView>::empty() =~= opening(prompt@));
    }
    if !back {
        push_memory(&mut msgs, s, memory_on);
    } else {
        assert(llm::msgs_view(msgs@) + Seq::<ApiMessageView>::empty() =~= llm::msgs_view(msgs@));
    }
    let ghost pre = preamble(s@, prompt@, memory_on, back);
    assert(llm::msgs_view(msgs@) == pre);
    let ghost all = sent_msgs(s@.history, lv);
    let mut i: usize = 0;
    assert(s@.history.len() == s.history@.len());
    assert(pre + all.take(0) =~= pre);
    while i < s.history.len()
        invariant
            i <= s.history@.len(),
            labels@.len() == s.history@.len(),
            lv == text::views(labels@),
            all == sent_msgs(s@.history, lv),
            llm::msgs_view(msgs@) == pre + all.take(i as int),
        decreases s.history@.len() - i,
    {
        let h = &s.history[i];
        let content = if text::same(h.role.as_str(), "user") {
            let mut c = labels[i].clone();
            c.append(speaker_prefix(h.sender).as_str());
            c.append(h.text.as_str());
            c
        } else {
            h.text.clone()
        };
        let m = ApiMessage { role: h.role.clone(), content };
        proof {
            assert(m@ == all[i as int]);
            assert(pre + all.take(i as int) + seq![m@] =~= pre + all.take(i + 1));
        }
        push_msg(&mut msgs, m);
        i += 1;
    }
    assert(all.take(all.len() as int) == all);
    if back {
        push_memory(&mut msgs, s, memory_on);
    } else {
        assert(llm::msgs_view(msgs@) + Seq::<ApiMessageView>::empty() =~= llm::msgs_view(msgs@));
    }
    let ghost so_far = llm::msgs_view(msgs@);
    match trail {
        Some(t) => {
            push_msg(&mut msgs, llm::message("user", t));
        },
        None => {
            assert(so_far + Seq::<ApiMessageView>::empty() =~= so_far);
        },
    }
    push_msg(&mut msgs, llm::message("user", question));
    msgs
}

/// Each message has a moment in words, or none where it is old.
pub open spec fn are_labels(labels: Seq<Seq<char>>, history: Seq<HistoryView>) -> bool {
    &&& labels.len() == history.len()
    &&& forall|i: int|
        0 <= i < labels.len() ==> is_history_label(#[trigger] labels[i], history[i].ts)
}

/// Puts a request together as of now: the moments in words are those of this machine.
pub fn assemble(
    s: &Session,
    prompt: &str,
    user_text: &str,
    sender: i64,
    memory_on: bool,
    placement: &str,
    trail: Option<String>,
) -> (r: Vec<ApiMessage>)
    ensures
        exists|labels: Seq<Seq<char>>, now: Seq<char>, reading: Option<u128>|
            are_labels(labels, s@.history) && #[trigger] is_label_at(now, clock::seconds_of(reading))
                && llm::msgs_view(r@) == #[trigger] request_of(
                s@,
                prompt@,
                memory_on,
                is_behind(placement@),
                labels,
                text::opt_view(trail),
                prefix_of(now, sender) + user_text@,
            ),
{
    let labels = history_labels(&s.history);
    let reading = clock::wall_clock();
    let now = ts_label(clock::seconds(reading));
    let mut question = now.clone();
    question.append(speaker_prefix(sender).as_str());
    question.append(user_text);
    let ghost lv = text::views(labels@);
    let ghost tv = text::opt_view(trail);
    assert(are_labels(lv, s@.history));
    assert(is_label_at(now@, clock::seconds_of(reading)));
    assert(question@ =~= prefix_of(now@, sender) + user_text@);
    let r = build_messages(s, prompt, memory_on, placement, &labels, trail, question);
    assert(llm::msgs_view(r@) == request_of(
        s@,
        prompt@,
        memory_on,
        is_behind(placement@),
        lv,
        tv,
        prefix_of(now@, sender) + user_text@,
    ));
    r
}

/// The note on the tasks that were finished since the last request.
pub open spec fn results_of(lines: Seq<Seq<char>>) -> Option<Seq<char>> {
    if lines.len() == 0 {
        None
    } else {
        Some("[子助手任务结果]\n"@ + text::join_of(lines, "\n"@))
    }
}

pub fn results_note(lines: &Vec<String>) -> (r: Option<String>)
    ensures
        text::opt_view(r) == results_of(text::views(lines@)),
{
    assert(text::views(lines@).len() == lines@.len());
    if lines.len() == 0 {
        return None;
    }
    let mut s = "[子助手任务结果]\n".to_owned();
    s.append(text::join(lines, "\n").as_str());
    Some(s)
}

pub open spec fn on_or_off(on: bool) -> Seq<char> {
    if on {
        "已启用"@
    } else {
        "未启用"@
    }
}

/// The note on what the helper may do at present.
pub open spec fn modes_of(cfg: AgentConfig) -> Seq<char> {
    "[子助手模式] QQ 操作:"@ + on_or_off(cfg.enable_qq_ops) + ";沙箱:"@ + on_or_off(cfg.enable_sandbox)
}

pub fn modes_note(cfg: &AgentConfig) -> (r: String)
    ensures
        r@ == modes_of(*cfg),
{
    let mut s = "[子助手模式] QQ 操作:".to_owned();
    s.append(if cfg.enable_qq_ops { "已启用" } else { "未启用" });
    s.append(";沙箱:");
    s.append(if cfg.enable_sandbox { "已启用" } else { "未启用" });
    s
}

/// A request with what concerns the helper: the guide to it behind the other guides,
/// whatever the settings; and right before the question what it may do at present, and
/// the results of its tasks.
pub open spec fn with_helper_of(
    m: Seq<ApiMessageView>,
    cfg: AgentConfig,
    results: Option<Seq<char>>,
) -> Seq<ApiMessageView> {
    m.take(3) + seq![llm::msg_of("system"@, tools::agent_guide_of())] + m.subrange(3, m.len() - 1)
        + seq![llm::msg_of("system"@, modes_of(cfg))] + perhaps(
        match results {
            Some(t) => Some(llm::msg_of("system"@, t)),
            None => None,
        },
    ) + seq![m.last()]
}

fn insert_msg(msgs: &mut Vec<ApiMessage>, at: usize, m: ApiMessage)
    requires
        at <= old(msgs)@.len(),
    ensures
        llm::msgs_view(final(msgs)@) == llm::msgs_view(old(msgs)@).insert(at as int, m@),
        final(msgs)@.len() == old(msgs)@.len() + 1,
{
    let ghost before = msgs@;
    msgs.insert(at, m);
    assert(llm::msgs_view(msgs@) =~= llm::msgs_view(before).insert(at as int, m@));
}

fn add_helper(msgs: &mut Vec<ApiMessage>, helper: &AgentConfig, results: &Vec<String>)
    requires
        old(msgs)@.len() >= 4,
    ensures
        llm::msgs_view(final(msgs)@) == with_helper_of(
            llm::msgs_view(old(msgs)@),
            *helper,
            results_of(text::views(results@)),
        ),
{
    let ghost m = llm::msgs_view(msgs@);
    assert(m.len() == msgs@.len());
    insert_msg(msgs, 3, llm::message("system", tools::agent_guide().to_owned()));
    let at: usize = msgs.len() - 1;
    insert_msg(msgs, at, llm::message("system", modes_note(helper)));
    match results_note(results) {
        Some(t) => {
            insert_msg(msgs, at + 1, llm::message("system", t));
        },
        None => {},
    }
    assert(llm::msgs_view(msgs@) =~= with_helper_of(m, *helper, results_of(text::views(results@))));
}

/// Puts a whole request together as of now, with the results of finished tasks.
pub fn whole_request(
    s: &Session,
    prompt: &str,
    user_text: &str,
    sender: i64,
    memory_on: bool,
    placement: &str,
    trail: Option<String>,
    helper: &AgentConfig,
    results: &Vec<String>,
) -> (r: Vec<ApiMessage>)
    ensures
        exists|labels: Seq<Seq<char>>, now: Seq<char>, reading: Option<u128>|
            are_labels(labels, s@.history) && #[trigger] is_label_at(now, clock::seconds_of(reading))
                && llm::msgs_view(r@) == with_helper_of(
                #[trigger] request_of(
                    s@,
                    prompt@,
                    memory_on,
                    is_behind(placement@),
                    labels,
                    text::opt_view(trail),
                    prefix_of(now, sender) + user_text@,
                ),
                *helper,
                results_of(text::views(results@)),
            ),
{
    let ghost tv = text::opt_view(trail);
    let mut msgs = assemble(s, prompt, user_text, sender, memory_on, placement, trail);
    let ghost m = llm::msgs_view(msgs@);
    proof {
        let (labels, now, reading) = choose|labels: Seq<Seq<char>>, now: Seq<char>, reading: Option<u128>|
            are_labels(labels, s@.history) && #[trigger] is_label_at(now, clock::seconds_of(reading)) && m
                == #[trigger] request_of(
                s@,
                prompt@,
                memory_on,
                is_behind(placement@),
                labels,
                tv,
                prefix_of(now, sender) + user_text@,
            );
        law_opening_is_constant(
            s@,
            prompt@,
            memory_on,
            is_behind(placement@),
            labels,
            tv,
            prefix_of(now, sender) + user_text@,
        );
        assert(m.len() == msgs@.len());
    }
    add_helper(&mut msgs, helper, results);
    msgs
}

// ---------- what was said lately ----------

/// How many lines are shown: how far back in seconds, and how many tokens at most, zero
/// standing for any number.
pub open spec fn trail_plan_of(cfg: TrailConfig, kind: MsgKind, at_me: bool, reply_me: bool) -> Option<(u64, u32)> {
    if !cfg.enabled || kind != MsgKind::Group {
        None
    } else if cfg.inject_mode@ == "triggered_only"@ && !(at_me || reply_me) {
        None
    } else {
        Some(
            (
                if cfg.inject_mode@ == "window"@ {
                    window_secs_of(cfg.window_minutes)
                } else {
                    86400
                },
                if cfg.inject_mode@ == "all"@ {
                    0
                } else {
                    cfg.max_tokens
                },
            ),
        )
    }
}

/// The window in seconds, a minute at least, as far as 64 bits hold it.
pub open spec fn window_secs_of(minutes: u64) -> u64 {
    let m = if minutes < 1 {
        1
    } else {
        minutes as int
    };
    lists::capped(m * 60, u64::MAX as int) as u64
}

pub fn window_secs(minutes: u64) -> (r: u64)
    ensures
        r == window_secs_of(minutes),
{
    let m: u64 = if minutes < 1 {
        1
    } else {
        minutes
    };
    if m > u64::MAX / 60 {
        u64::MAX
    } else {
        m * 60
    }
}

/// Which lines a question is asked with, if any.
pub fn trail_plan(cfg: &TrailConfig, kind: MsgKind, at_me: bool, reply_me: bool) -> (r: Option<(u64, u32)>)
    ensures
        r == trail_plan_of(*cfg, kind, at_me, reply_me),
{
    if !cfg.enabled || kind != MsgKind::Group {
        return None;
    }
    if text::same(cfg.inject_mode.as_str(), "triggered_only") && !(at_me || reply_me) {
        return None;
    }
    let secs: u64 = if text::same(cfg.inject_mode.as_str(), "window") {
        window_secs(cfg.window_minutes)
    } else {
        86400
    };
    let tokens: u32 = if text::same(cfg.inject_mode.as_str(), "all") {
        0
    } else {
        cfg.max_tokens
    };
    Some((secs, tokens))
}

/// How lines are noted: for how many seconds they are kept, and how many at most, zero
/// standing for any number.
pub open spec fn noting_of(cfg: TrailConfig) -> (u64, usize) {
    (
        if cfg.inject_mode@ == "window"@ {
            window_secs_of(cfg.window_minutes)
        } else {
            86400
        },
        if cfg.inject_mode@ == "all"@ {
            0
        } else {
            cfg.max_entries as usize
        },
    )
}

pub fn noting(cfg: &TrailConfig) -> (r: (u64, usize))
    ensures
        r == noting_of(*cfg),
{
    let secs: u64 = if text::same(cfg.inject_mode.as_str(), "window") {
        window_secs(cfg.window_minutes)
    } else {
        86400
    };
    let most: usize = if text::same(cfg.inject_mode.as_str(), "all") {
        0
    } else {
        cfg.max_entries as usize
    };
    (secs, most)
}

/// A line as it is shown.
pub open spec fn shown_line(line: (u128, i64, Seq<char>), label: Seq<char>) -> Seq<char> {
    label + speaker_of(line.1) + line.2
}

/// The recent ones of the first `n` lines as they are shown.
pub open spec fn shown_lines(
    lines: Seq<(u128, i64, Seq<char>)>,
    labels: Seq<Seq<char>>,
    window_secs: u64,
    now: u128,
    n: int,
) -> Seq<Seq<char>>
    decreases n,
{
    if n <= 0 {
        Seq::<Seq<char>>::empty()
    } else {
        let init = shown_lines(lines, labels, window_secs, now, n - 1);
        if runtime::is_fresh(lines[n - 1], window_secs, now) {
            init.push(shown_line(lines[n - 1], labels[n - 1]))
        } else {
            init
        }
    }
}

/// The lines of the last so many seconds as they are shown, with the given labels.
pub fn trail_lines(lines: &Vec<TrailLine>, labels: &Vec<String>, window_secs: u64, now: u128) -> (r: Vec<
    String,
>)
    requires
        labels@.len() == lines@.len(),
    ensures
        text::views(r@) == shown_lines(
            runtime::trail_views(lines@),
            text::views(labels@),
            window_secs,
            now,
            lines@.len() as int,
        ),
{
    let ghost lv = runtime::trail_views(lines@);
    let ghost bv = text::views(labels@);
    let mut r: Vec<String> = Vec::new();
    let mut i: usize = 0;
    assert(text::views(r@) =~= shown_lines(lv, bv, window_secs, now, 0));
    while i < lines.len()
        invariant
            i <= lines@.len(),
            labels@.len() == lines@.len(),
            lv == runtime::trail_views(lines@),
            bv == text::views(labels@),
            text::views(r@) == shown_lines(lv, bv, window_secs, now, i as int),
        decreases lines@.len() - i,
    {
        let l = &lines[i];
        assert(lv[i as int] == (l.0, l.1, l.2@));
        if l.0 <= now && (now - l.0) / 1_000_000_000 < window_secs as u128 {
            let mut s = labels[i].clone();
            s.append(speaker_prefix(l.1).as_str());
            s.append(l.2.as_str());
            let ghost before = r@;
            r.push(s);
            assert(text::views(r@) =~= text::views(before).push(s@));
        }
        i += 1;
    }
    r
}

/// `s` may be the label of a line: its moment in brackets, without a space behind.
pub open spec fn is_trail_label(s: Seq<char>, at: u128) -> bool {
    let ts = clock::seconds_of(Some(at));
    if clock::in_calendar(ts as int) {
        clock::is_minute_at(s.push(' '), ts)
    } else {
        s.len() == 0
    }
}

/// The label of a line.
pub fn trail_label(at: u128) -> (r: String)
    ensures
        is_trail_label(r@, at),
{
    let label = ts_label(clock::seconds(Some(at)));
    let n: usize = label.as_str().unicode_len();
    if n == 0 {
        return String::new();
    }
    let s = label.as_str().substring_char(0, n - 1).to_owned();
    assert(s@.push(' ') =~= label@);
    s
}

/// Each line has its label.
pub open spec fn are_trail_labels(labels: Seq<Seq<char>>, lines: Seq<(u128, i64, Seq<char>)>) -> bool {
    &&& labels.len() == lines.len()
    &&& forall|i: int| 0 <= i < labels.len() ==> is_trail_label(#[trigger] labels[i], lines[i].0)
}

/// The lines of a session as they are shown as of now.
pub fn render_lines(lines: &Vec<TrailLine>, window_secs: u64) -> (r: Vec<String>)
    ensures
        exists|labels: Seq<Seq<char>>, now: u128|
            are_trail_labels(labels, runtime::trail_views(lines@)) && text::views(r@)
                == #[trigger] shown_lines(
                runtime::trail_views(lines@),
                labels,
                window_secs,
                now,
                lines@.len() as int,
            ),
{
    let now: u128 = match clock::wall_clock() {
        Some(ns) => ns,
        None => 0,
    };
    let mut labels: Vec<String> = Vec::new();
    let mut i: usize = 0;
    while i < lines.len()
        invariant
            i <= lines@.len(),
            labels@.len() == i,
            forall|k: int| 0 <= k < i ==> is_trail_label((#[trigger] labels@[k])@, lines@[k].0),
        decreases lines@.len() - i,
    {
        labels.push(trail_label(lines[i].0));
        i += 1;
    }
    let ghost lv = text::views(labels@);
    assert(are_trail_labels(lv, runtime::trail_views(lines@)));
    trail_lines(lines, &labels, window_secs, now)
}

/// How many of the newest fit: counted from the end, with the total of the estimates
/// no greater than 32 bits hold.
pub open spec fn fitting(tokens: Seq<u32>, so_far: int, most: int) -> int
    decreases tokens.len(),
{
    if tokens.len() == 0 {
        0
    } else {
        let t = lists::capped(so_far + tokens.last(), u32::MAX as int);
        if t > most {
            0
        } else {
            1 + fitting(tokens.drop_last(), t, most)
        }
    }
}

pub open spec fn shown_count(tokens: Seq<u32>, max_tokens: u32) -> int {
    if max_tokens == 0 {
        tokens.len() as int
    } else {
        fitting(tokens, 0, max_tokens as int)
    }
}

/// Lines one below the other.
pub open spec fn stacked(lines: Seq<Seq<char>>) -> Seq<char>
    decreases lines.len(),
{
    if lines.len() == 0 {
        "[群聊最近消息]\n"@
    } else {
        stacked(lines.drop_last()) + lines.last() + "\n"@
    }
}

/// The newest lines that fit, as one message; none where none fits.
pub open spec fn trail_text_of(lines: Seq<Seq<char>>, tokens: Seq<u32>, max_tokens: u32) -> Option<Seq<char>> {
    let n = shown_count(tokens, max_tokens);
    if n <= 0 {
        None
    } else {
        Some(stacked(lines.skip(lines.len() - n)))
    }
}

proof fn lemma_fitting(tokens: Seq<u32>, so_far: int, most: int)
    ensures
        0 <= fitting(tokens, so_far, most) <= tokens.len(),
    decreases tokens.len(),
{
    if tokens.len() > 0 {
        lemma_fitting(
            tokens.drop_last(),
            lists::capped(so_far + tokens.last(), u32::MAX as int),
            most,
        );
    }
}

/// The newest lines that fit, as one message; `tokens` are their estimates, and zero for
/// `max_tokens` lets all of them through.
pub fn render_trail(lines: &Vec<String>, tokens: &Vec<u32>, max_tokens: u32) -> (r: Option<String>)
    requires
        tokens@.len() == lines@.len(),
    ensures
        text::opt_view(r) == trail_text_of(text::views(lines@), tokens@, max_tokens),
{
    let ghost lv = text::views(lines@);
    let n: usize = lines.len();
    let mut from: usize = n;
    if max_tokens == 0 {
        from = 0;
    } else {
        let mut total: u32 = 0;
        let mut open = true;
        assert(tokens@.take(n as int) == tokens@);
        while from > 0 && open
            invariant
                from <= n,
                n == tokens@.len(),
                open ==> (n - from) + fitting(tokens@.take(from as int), total as int, max_tokens as int)
                    == fitting(tokens@, 0, max_tokens as int),
                !open ==> n - from == fitting(tokens@, 0, max_tokens as int),
            decreases
                from,
                if open {
                    1int
                } else {
                    0int
                },
        {
            proof {
                assert(tokens@.take(from as int).drop_last() == tokens@.take(from - 1));
                assert(tokens@.take(from as int).last() == tokens@[from - 1]);
            }
            let t: u32 = total.saturating_add(tokens[from - 1]);
            if t > max_tokens {
                open = false;
            } else {
                total = t;
                from -= 1;
            }
        }
        assert(from == 0 ==> tokens@.take(0).len() == 0);
    }
    if from == n {
        return None;
    }
    let ghost kept = lv.skip(from as int);
    let mut s = "[群聊最近消息]\n".to_owned();
    let mut i: usize = from;
    assert(kept.take(0).len() == 0);
    while i < n
        invariant
            from <= i <= n,
            n == lines@.len(),
            lv == text::views(lines@),
            kept == lv.skip(from as int),
            s@ == stacked(kept.take(i - from)),
        decreases n - i,
    {
        proof {
            assert(kept.take(i - from + 1).drop_last() =~= kept.take(i - from));
            assert(kept.take(i - from + 1).last() == lines@[i as int]@);
        }
        s.append(lines[i].as_str());
        s.append("\n");
        i += 1;
    }
    assert(kept.take(n - from) =~= kept);
    Some(s)
}

// ---------- laws ----------

/// The cut fits: after it the messages that stay are within what the budget leaves
/// beside the summary, whatever the settings.
pub proof fn law_cut_fits(s: SessionView, input_budget: u64)
    ensures
        ({
            let n = cut_count(s, input_budget);
            &&& 0 <= n <= s.history.len()
            &&& session::history_total(s.history.skip(n)) <= less(
                input_budget as int,
                s.summary_tokens as int,
            )
        }),
{
    let tokens = tokens_of(s.history);
    let room = less(input_budget as int, s.summary_tokens as int);
    let n = cut_count(s, input_budget);
    estimate::law_drop_is_least(tokens, room, 0);
    assert(tokens_of(s.history.skip(n)) =~= tokens.skip(n));
    lemma_totals(s.history.skip(n));
    if tokens.len() - n <= 0 {
        assert(tokens.skip(n).len() == 0);
    }
}

proof fn lemma_fold_bounds(tokens: Seq<u32>, cfg: BudgetConfig, budget: u64, share: int)
    ensures
        0 <= fold_count_of(tokens, cfg, budget, share) <= tokens.len(),
{
    let limit = lists::capped(less(budget as int, share), cfg.history_target_tokens as int);
    estimate::law_drop_is_least(tokens, limit, 1);
}

/// With the memory in front, a history beyond its limit is folded down to the messages
/// that are kept, and one within its limit is not touched.
pub proof fn law_front_folds_to_what_is_kept(s: SessionView, cfg: BudgetConfig, budget: u64)
    requires
        cfg.summarize,
        cfg.placement@ == "front"@,
        s.history.len() > 2,
    ensures
        ({
            let after = trim_begun(s, cfg, budget).history;
            let keep = if cfg.recent_keep_msgs < 1 {
                1
            } else {
                cfg.recent_keep_msgs as int
            };
            if session::history_total(s.history) > cfg.recent_max_tokens && keep < s.history.len() {
                after == s.history.skip(s.history.len() - keep) && after.len() == keep
            } else {
                after == s.history
            }
        }),
{
    lemma_totals(s.history);
    assert(s.history.skip(0) =~= s.history);
}

/// Whatever came of the fold, the session ends up within its budget, and what is left of
/// its history is the end of what it was, to the byte.
pub proof fn law_trimmed_session_fits(s: SessionView, cfg: BudgetConfig, budget: u64, o: Option<FoldOutcome>)
    ensures
        ({
            let after = trim_ended(trim_begun(s, cfg, budget), budget, o);
            &&& session::history_total(after.history) <= less(budget as int, after.summary_tokens as int)
            &&& after.history.len() <= s.history.len()
            &&& after.history == s.history.skip(s.history.len() - after.history.len())
        }),
{
    let begun = trim_begun(s, cfg, budget);
    let t = match o {
        Some(x) => fold_settled(begun, x),
        None => begun,
    };
    lemma_fold_bounds(tokens_of(s.history), cfg, budget, summary_share(s, budget));
    law_cut_fits(t, budget);
    let after = trim_ended(begun, budget, o);
    assert(after.history =~= s.history.skip(s.history.len() - after.history.len()));
}

/// A request that fits loses nothing: where the messages are within the budget, beside a
/// summary that is kept, none is cut; a summary that was given up does not count.
pub proof fn law_no_cut_without_need(s: SessionView, input_budget: u64)
    requires
        session::history_total(s.history) <= less(
            input_budget as int,
            summary_share(s, input_budget),
        ),
    ensures
        cut_count(summary_settled(s, input_budget), input_budget) == 0,
{
    lemma_totals(s.history);
    assert(tokens_of(s.history).skip(0) =~= tokens_of(s.history));
}

/// A prefix cache keeps hitting: when only messages were added to the history, the next
/// request begins with everything of the last one up to the end of its history.
pub proof fn law_prefix_is_stable(
    s: SessionView,
    more: Seq<HistoryView>,
    prompt: Seq<char>,
    memory_on: bool,
    back: bool,
    labels: Seq<Seq<char>>,
    later: Seq<Seq<char>>,
    trail: Option<Seq<char>>,
    question: Seq<char>,
    trail2: Option<Seq<char>>,
    question2: Seq<char>,
)
    requires
        labels.len() == s.history.len(),
        later.len() == more.len(),
    ensures
        ({
            let grown = SessionView { history: s.history + more, ..s };
            let kept = preamble(s, prompt, memory_on, back) + sent_msgs(s.history, labels);
            let first = request_of(s, prompt, memory_on, back, labels, trail, question);
            let second = request_of(
                grown,
                prompt,
                memory_on,
                back,
                labels + later,
                trail2,
                question2,
            );
            &&& first.len() >= kept.len() && first.take(kept.len() as int) == kept
            &&& second.len() >= kept.len() && second.take(kept.len() as int) == kept
        }),
{
    let grown = SessionView { history: s.history + more, ..s };
    let pre = preamble(s, prompt, memory_on, back);
    assert(preamble(grown, prompt, memory_on, back) =~= pre);
    let kept = pre + sent_msgs(s.history, labels);
    let first = request_of(s, prompt, memory_on, back, labels, trail, question);
    let second = request_of(grown, prompt, memory_on, back, labels + later, trail2, question2);
    assert(first.take(kept.len() as int) =~= kept);
    let sent = sent_msgs(grown.history, labels + later);
    assert forall|i: int| 0 <= i < s.history.len() implies #[trigger] sent[i] == sent_msgs(
        s.history,
        labels,
    )[i] by {}
    assert(second.take(kept.len() as int) =~= kept);
}

/// The opening of a request does not depend on the settings of the memory, on what is
/// remembered, on the history or on the question.
pub proof fn law_opening_is_constant(
    s: SessionView,
    prompt: Seq<char>,
    memory_on: bool,
    back: bool,
    labels: Seq<Seq<char>>,
    trail: Option<Seq<char>>,
    question: Seq<char>,
)
    ensures
        ({
            let r = request_of(s, prompt, memory_on, back, labels, trail, question);
            r.len() >= 4 && r.take(3) == opening(prompt) && r.last() == llm::msg_of("user"@, question)
        }),
{
    let r = request_of(s, prompt, memory_on, back, labels, trail, question);
    assert(r.take(3) =~= opening(prompt));
}

/// What concerns the helper does not disturb a prefix cache: as far as two requests
/// agree, the question not counted, they agree with the guide in them, whatever
/// the helper may do and has done; and the question stays last.
pub proof fn law_guide_keeps_the_prefix(
    a: Seq<ApiMessageView>,
    b: Seq<ApiMessageView>,
    n: int,
    cfg: AgentConfig,
    cfg2: AgentConfig,
    results: Option<Seq<char>>,
    results2: Option<Seq<char>>,
)
    requires
        3 <= n < a.len(),
        n < b.len(),
        a.take(n) == b.take(n),
    ensures
        with_helper_of(a, cfg, results).take(n + 1) == with_helper_of(b, cfg2, results2).take(n + 1),
        with_helper_of(a, cfg, results).take(4) == a.take(3).push(
            llm::msg_of("system"@, tools::agent_guide_of()),
        ),
        with_helper_of(a, cfg, results).last() == a.last(),
{
    let x = with_helper_of(a, cfg, results);
    let y = with_helper_of(b, cfg2, results2);
    assert forall|i: int| 0 <= i < n implies #[trigger] a[i] == b[i] by {
        assert(a.take(n)[i] == a[i] && b.take(n)[i] == b[i]);
    }
    assert(x.take(n + 1) =~= y.take(n + 1));
    assert(x.take(4) =~= a.take(3).push(llm::msg_of("system"@, tools::agent_guide_of())));
}

/// With the memory behind the history, a change of the memory leaves everything up to
/// the end of the history as it was.
pub proof fn law_memory_behind_spares_history(
    s: SessionView,
    changed: Seq<memory::MemoryEntryView>,
    prompt: Seq<char>,
    memory_on: bool,
    labels: Seq<Seq<char>>,
)
    ensures
        preamble(SessionView { memory: changed, ..s }, prompt, memory_on, true) == preamble(
            s,
            prompt,
            memory_on,
            true,
        ),
{
}

/// The lines shown are the newest, without a gap, and as many as fit.
pub proof fn law_trail_shows_newest(lines: Seq<Seq<char>>, tokens: Seq<u32>, max_tokens: u32)
    requires
        tokens.len() == lines.len(),
    ensures
        0 <= shown_count(tokens, max_tokens) <= lines.len(),
        trail_text_of(lines, tokens, max_tokens) matches Some(t) ==> t == stacked(
            lines.skip(lines.len() - shown_count(tokens, max_tokens)),
        ),
        max_tokens == 0 && lines.len() > 0 ==> trail_text_of(lines, tokens, max_tokens) == Some(
            stacked(lines),
        ),
{
    lemma_fitting(tokens, 0, max_tokens as int);
    assert(lines.skip(0) =~= lines);
}

/// What a session may take is what the context leaves when the reserve, persona and
/// guides, the memory and the question are counted; nothing where these are too much.
pub proof fn law_budget_is_what_is_left(cfg: BudgetConfig, prompt: u64, mem: u32, user: u32)
    ensures
        ({
            let used = cfg.reserve_tokens + prompt + mem + user;
            let b = input_budget_of(cfg, prompt, mem, user);
            &&& used <= cfg.context_tokens ==> b + used == cfg.context_tokens
            &&& used > cfg.context_tokens ==> b == 0
        }),
{
}

/// A summary is given up exactly where it would leave no room for the history, and is
/// then gone with its estimate; nothing else of the session changes.
pub proof fn law_summary_makes_room(s: SessionView, budget: u64)
    ensures
        ({
            let t = summary_settled(s, budget);
            &&& budget > s.summary_tokens ==> t == s
            &&& s.summary is Some && budget <= s.summary_tokens ==> t.summary is None && t.summary_tokens == 0
            &&& t.history == s.history && t.memory == s.memory && t.key == s.key && t.file == s.file
        }),
{
}

/// With the memory behind the history, a history beyond its limit is folded until what
/// stays is within the limit or a single message is left, two messages at least and no
/// more than that takes; one within its limit is not touched. The limit is the target of
/// the settings, or what the budget leaves beside the summary where that is less.
pub proof fn law_back_folds_to_the_limit(s: SessionView, cfg: BudgetConfig, budget: u64)
    requires
        cfg.summarize,
        cfg.placement@ != "front"@,
        cfg.history_target_tokens > 0,
        s.history.len() > 2,
    ensures
        ({
            let after = trim_begun(s, cfg, budget).history;
            let n = s.history.len() - after.len();
            let summary = if s.summary is Some && budget <= s.summary_tokens {
                0
            } else {
                s.summary_tokens as int
            };
            let room = if budget > summary {
                budget - summary
            } else {
                0
            };
            let limit = if room < cfg.history_target_tokens {
                room
            } else {
                cfg.history_target_tokens as int
            };
            if session::history_total(s.history) > limit {
                &&& 2 <= n <= s.history.len()
                &&& after == s.history.skip(n)
                &&& session::history_total(after) <= limit || after.len() <= 1
                &&& forall|k: int|
                    0 <= k < n && (k != 1 || n > 2) ==> session::history_total(#[trigger] s.history.skip(k)) > limit
            } else {
                after == s.history
            }
        }),
{
    let tokens = tokens_of(s.history);
    let room = less(budget as int, summary_share(s, budget));
    let limit = lists::capped(room, cfg.history_target_tokens as int);
    lemma_totals(s.history);
    assert(s.history.skip(0) =~= s.history);
    if session::history_total(s.history) > limit {
        estimate::law_drop_is_least(tokens, limit, 1);
        let d = estimate::drop_from(tokens, limit, 1, 0);
        let n = fold_due(s, cfg, budget);
        let after = s.history.skip(n);
        assert(trim_begun(s, cfg, budget).history == after);
        lemma_totals(after);
        assert(tokens_of(after) =~= tokens.skip(n));
        assert(d >= 1) by {
            assert(tokens.skip(0) =~= tokens);
        }
        if d < 2 {
            assert(n == 2 && d == 1);
            let one = tokens.skip(1);
            assert(one.skip(1) =~= tokens.skip(2));
            assert(estimate::total(one) == one[0] + estimate::total(one.skip(1)));
        }
        assert forall|k: int| 0 <= k < n && (k != 1 || n > 2) implies session::history_total(
            #[trigger] s.history.skip(k),
        ) > limit by {
            lemma_totals(s.history.skip(k));
            assert(tokens_of(s.history.skip(k)) =~= tokens.skip(k));
            if k >= d {
                assert(k == 0);
            }
        }
    }
}

/// Nothing is folded where summaries are off, where there is hardly a history, or where no
/// limit is set for the history.
pub proof fn law_no_fold_unless_asked(s: SessionView, cfg: BudgetConfig, budget: u64)
    requires
        !cfg.summarize || s.history.len() <= 2 || (cfg.placement@ != "front"@ && cfg.history_target_tokens == 0),
    ensures
        trim_begun(s, cfg, budget).history == s.history,
{
    assert(s.history.skip(0) =~= s.history);
}

/// What is folded is handed over whole: every message that leaves, in its order, with its
/// role and what it says, a user's with its account, and the summary so far.
pub proof fn law_fold_hands_over_all(job: Option<FoldJob>, s: SessionView, n: int, budget: u64)
    requires
        is_fold_of(job, s, n, budget),
        0 <= n <= s.history.len(),
    ensures
        job is Some <==> n > 0,
        match job {
            Some(j) => {
                &&& j.messages@.len() == n
                &&& forall|i: int|
                    0 <= i < n ==> {
                        let m = (#[trigger] j.messages@[i])@;
                        let h = s.history[i];
                        &&& m.role == h.role
                        &&& text::ends(m.content, h.text)
                        &&& h.role != "user"@ || h.sender <= 0 ==> m.content == h.text
                        &&& h.role == "user"@ && h.sender > 0 ==> m.content == "[QQ"@ + number::dec(
                            h.sender as int,
                        ) + "] "@ + h.text
                    }
                &&& s.summary is Some && budget > s.summary_tokens ==> j.old_summary@ == s.summary->0
                &&& s.summary is None ==> j.old_summary@.len() == 0
            },
            None => true,
        },
{
    if let Some(j) = job {
        let sent = llm::msgs_view(j.messages@);
        assert(sent.len() == j.messages@.len());
        assert forall|i: int| 0 <= i < n implies {
            let m = (#[trigger] j.messages@[i])@;
            let h = s.history[i];
            &&& m.role == h.role
            &&& text::ends(m.content, h.text)
            &&& h.role != "user"@ || h.sender <= 0 ==> m.content == h.text
            &&& h.role == "user"@ && h.sender > 0 ==> m.content == "[QQ"@ + number::dec(h.sender as int) + "] "@
                + h.text
        } by {
            let h = s.history[i];
            let m = j.messages@[i]@;
            assert(sent[i] == m);
            assert(s.history.take(n)[i] == h);
            assert(m == folded_msg(h));
            assert(m.content.skip(m.content.len() - h.text.len()) =~= h.text);
            assert(Seq::<char>::empty() + h.text =~= h.text);
        }
    }
}

/// What came of a fold is what the session keeps: the new summary with its estimate; none
/// where it failed; and the old one where there was no model to ask. The messages are not
/// touched by it.
pub proof fn law_fold_is_taken_up(s: SessionView, o: FoldOutcome)
    ensures
        ({
            let t = fold_settled(s, o);
            &&& match o {
                FoldOutcome::Summary { text, tokens } => t.summary == Some(text@) && t.summary_tokens == tokens,
                FoldOutcome::Failed => t.summary is None && t.summary_tokens == 0,
                FoldOutcome::NoModel => t.summary == s.summary && t.summary_tokens == s.summary_tokens,
            }
            &&& t.history == s.history && t.memory == s.memory && t.key == s.key && t.file == s.file
        }),
{
}

/// No message is cut that could stay: with one more than those that stay, the session
/// would be over its budget.
pub proof fn law_cut_is_least(s: SessionView, input_budget: u64, k: int)
    requires
        0 <= k < cut_count(s, input_budget),
    ensures
        session::history_total(s.history.skip(k)) > input_budget - s.summary_tokens,
{
    let tokens = tokens_of(s.history);
    let room = less(input_budget as int, s.summary_tokens as int);
    estimate::law_drop_is_least(tokens, room, 0);
    lemma_totals(s.history.skip(k));
    assert(tokens_of(s.history.skip(k)) =~= tokens.skip(k));
}

/// A request holds everything in its place: the persona first, with the guides to the
/// memory and to thinking; then the summary, if there is one; the whole history in its
/// order, each message with its role and its words, a user's with when and by whom they
/// were said; what was said lately; and the question last. The memory stands once, before
/// the history or behind it, and only where it is on and holds something.
pub proof fn law_request_holds_all(
    s: SessionView,
    prompt: Seq<char>,
    memory_on: bool,
    back: bool,
    labels: Seq<Seq<char>>,
    trail: Option<Seq<char>>,
    question: Seq<char>,
)
    requires
        labels.len() == s.history.len(),
    ensures
        ({
            let r = request_of(s, prompt, memory_on, back, labels, trail, question);
            let remembers = memory_on && s.memory.len() > 0;
            let summed: int = if s.summary is Some {
                1
            } else {
                0
            };
            let before: int = if remembers && !back {
                1
            } else {
                0
            };
            let behind: int = if remembers && back {
                1
            } else {
                0
            };
            let lately: int = if trail is Some {
                1
            } else {
                0
            };
            let at = 3 + summed + before;
            let n = s.history.len();
            &&& r.len() == at + n + behind + lately + 1
            &&& r[0].role == "system"@ && r[0].content == prompt
            &&& r[1].role == "system"@ && r[1].content == events::memory_guide_of()
            &&& r[2].role == "system"@ && r[2].content == events::thinking_guide_of()
            &&& s.summary is Some ==> r[3].role == "system"@ && text::ends(r[3].content, s.summary->0)
            &&& remembers && !back ==> r[at - 1].role == "system"@ && r[at - 1].content == memory::system_text_of(
                s.memory,
            )
            &&& remembers && back ==> r[at + n].role == "system"@ && r[at + n].content == memory::system_text_of(
                s.memory,
            )
            &&& forall|i: int|
                0 <= i < n ==> {
                    let h = #[trigger] s.history[i];
                    let m = r[at + i];
                    &&& m.role == h.role
                    &&& h.role != "user"@ ==> m.content == h.text
                    &&& h.role == "user"@ && h.sender > 0 ==> m.content == labels[i] + ("[QQ"@ + number::dec(
                        h.sender as int,
                    ) + "] "@) + h.text
                    &&& h.role == "user"@ && h.sender <= 0 ==> m.content == labels[i] + h.text
                }
            &&& trail matches Some(t) ==> r[r.len() - 2].role == "user"@ && r[r.len() - 2].content == t
            &&& r.last().role == "user"@ && r.last().content == question
        }),
{
    let r = request_of(s, prompt, memory_on, back, labels, trail, question);
    let pre = preamble(s, prompt, memory_on, back);
    let at = pre.len() as int;
    let all = sent_msgs(s.history, labels);
    if let Some(t) = s.summary {
        let c = "[先前对话摘要]\n"@ + t;
        assert(c.skip(c.len() - t.len()) =~= t);
        assert(r[3] == llm::msg_of("system"@, c));
    }
    assert forall|i: int| 0 <= i < s.history.len() implies {
        let h = #[trigger] s.history[i];
        let m = r[at + i];
        &&& m.role == h.role
        &&& h.role != "user"@ ==> m.content == h.text
        &&& h.role == "user"@ && h.sender > 0 ==> m.content == labels[i] + ("[QQ"@ + number::dec(h.sender as int)
            + "] "@) + h.text
        &&& h.role == "user"@ && h.sender <= 0 ==> m.content == labels[i] + h.text
    } by {
        let h = s.history[i];
        assert(r[at + i] == all[i]);
        assert(all[i] == sent_msg(h, labels[i]));
        assert(labels[i] + Seq::<char>::empty() =~= labels[i]);
        assert((labels[i] + ("[QQ"@ + number::dec(h.sender as int) + "] "@)) =~= prefix_of(labels[i], h.sender)
            || h.sender <= 0);
    }
}

/// What stands at the end of a request tells what the helper may do and has done: right
/// before the question the results of its tasks, each of them, and before these whether
/// either of its modes is on.
pub proof fn law_helper_is_told_of(m: Seq<ApiMessageView>, cfg: AgentConfig, lines: Seq<Seq<char>>)
    requires
        m.len() >= 4,
    ensures
        ({
            let r = with_helper_of(m, cfg, results_of(lines));
            let told: int = if lines.len() > 0 {
                1
            } else {
                0
            };
            &&& r.len() == m.len() + 2 + told
            &&& r.last() == m.last()
            &&& r[r.len() - 2 - told].content == "[子助手模式] QQ 操作:"@ + (if cfg.enable_qq_ops {
                "已启用"@
            } else {
                "未启用"@
            }) + ";沙箱:"@ + (if cfg.enable_sandbox {
                "已启用"@
            } else {
                "未启用"@
            })
            &&& lines.len() > 0 ==> text::ends(r[r.len() - 2].content, text::join_of(lines, "\n"@))
            &&& forall|i: int| 3 <= i < m.len() - 1 ==> r[i + 1] == #[trigger] m[i]
            &&& forall|i: int| 0 <= i < 3 ==> r[i] == #[trigger] m[i]
            &&& r[3].content == tools::agent_guide_of()
        }),
{
    let r = with_helper_of(m, cfg, results_of(lines));
    if lines.len() > 0 {
        let t = results_of(lines)->0;
        let j = text::join_of(lines, "\n"@);
        assert(t.skip(t.len() - j.len()) =~= j);
        assert(r[r.len() - 2].content == t);
    }
    let mid = m.subrange(3, m.len() - 1);
    assert forall|i: int| 3 <= i < m.len() - 1 implies r[i + 1] == #[trigger] m[i] by {
        assert(mid[i - 3] == m[i]);
    }
}

/// A window is as many minutes as set, one at least; lines are shown and noted only as the
/// settings say: in groups, in a window or over a day, with a limit or without.
pub proof fn law_trail_goes_by_its_settings(cfg: TrailConfig, kind: MsgKind, at_me: bool, reply_me: bool)
    ensures
        trail_plan_of(cfg, kind, at_me, reply_me) is Some <==> {
            &&& cfg.enabled
            &&& kind == MsgKind::Group
            &&& cfg.inject_mode@ != "triggered_only"@ || at_me || reply_me
        },
        match trail_plan_of(cfg, kind, at_me, reply_me) {
            Some((secs, most)) => {
                &&& secs == noting_of(cfg).0
                &&& cfg.inject_mode@ == "all"@ ==> most == 0
                &&& cfg.inject_mode@ != "all"@ ==> most == cfg.max_tokens
            },
            None => true,
        },
        cfg.inject_mode@ == "window"@ && 1 <= cfg.window_minutes <= 1_000_000_000 ==> noting_of(cfg).0
            == cfg.window_minutes * 60,
        cfg.inject_mode@ != "window"@ ==> noting_of(cfg).0 == 24 * 60 * 60,
        cfg.inject_mode@ == "all"@ ==> noting_of(cfg).1 == 0,
        cfg.inject_mode@ != "all"@ ==> noting_of(cfg).1 == cfg.max_entries,
        window_secs_of(0) == 60,
        forall|a: u64, b: u64| a <= b ==> #[trigger] window_secs_of(a) <= #[trigger] window_secs_of(b),
{
}

/// Of the lines those are shown, in their order, that were said within the last so many
/// seconds, each with its moment, its speaker and its words.
pub proof fn law_recent_lines_are_shown(
    lines: Seq<(u128, i64, Seq<char>)>,
    labels: Seq<Seq<char>>,
    window_secs: u64,
    now: u128,
    n: int,
)
    requires
        0 < n <= lines.len(),
    ensures
        ({
            let so_far = shown_lines(lines, labels, window_secs, now, n - 1);
            let (at, who, words) = lines[n - 1];
            let recent = at <= now && (now - at) / 1_000_000_000 < window_secs;
            &&& recent && who > 0 ==> shown_lines(lines, labels, window_secs, now, n) == so_far.push(
                labels[n - 1] + ("[QQ"@ + number::dec(who as int) + "] "@) + words,
            )
            &&& recent && who <= 0 ==> shown_lines(lines, labels, window_secs, now, n) == so_far.push(
                labels[n - 1] + words,
            )
            &&& !recent ==> shown_lines(lines, labels, window_secs, now, n) == so_far
        }),
        shown_lines(lines, labels, window_secs, now, 0).len() == 0,
{
    let (at, who, words) = lines[n - 1];
    assert(labels[n - 1] + Seq::<char>::empty() =~= labels[n - 1]);
    if who > 0 {
        assert(shown_line(lines[n - 1], labels[n - 1]) =~= labels[n - 1] + ("[QQ"@ + number::dec(who as int)
            + "] "@) + words);
    }
}

/// The lines that are shown are as many of the newest as fit: their estimates are within
/// the limit, and with one line more they would not be.
pub proof fn law_as_many_lines_as_fit(tokens: Seq<u32>, max_tokens: u32)
    requires
        0 < max_tokens < u32::MAX,
    ensures
        ({
            let n = shown_count(tokens, max_tokens);
            &&& 0 <= n <= tokens.len()
            &&& estimate::total(tokens.skip(tokens.len() - n)) <= max_tokens
            &&& n < tokens.len() ==> estimate::total(tokens.skip(tokens.len() - n - 1)) > max_tokens
        }),
{
    lemma_fitting_total(tokens, 0, max_tokens as int);
    lemma_fitting(tokens, 0, max_tokens as int);
}

proof fn lemma_fitting_total(tokens: Seq<u32>, so_far: int, most: int)
    requires
        0 <= so_far <= most < u32::MAX,
    ensures
        ({
            let n = fitting(tokens, so_far, most);
            &&& 0 <= n <= tokens.len()
            &&& so_far + estimate::total(tokens.skip(tokens.len() - n)) <= most
            &&& n < tokens.len() ==> so_far + estimate::total(tokens.skip(tokens.len() - n - 1)) > most
        }),
    decreases tokens.len(),
{
    let n = fitting(tokens, so_far, most);
    if tokens.len() == 0 {
        assert(tokens.skip(0).len() == 0);
    } else {
        let t = lists::capped(so_far + tokens.last(), u32::MAX as int);
        let init = tokens.drop_last();
        if t > most {
            assert(tokens.skip(tokens.len() as int).len() == 0);
            let one = tokens.skip(tokens.len() - 1);
            assert(one.skip(1).len() == 0);
            assert(one[0] == tokens.last());
            reveal_with_fuel(estimate::total, 2);
        } else {
            lemma_fitting_total(init, t, most);
            let m = fitting(init, t, most);
            let kept = tokens.skip(tokens.len() - n);
            assert(kept.drop_last() =~= init.skip(init.len() - m));
            assert(kept.last() == tokens.last());
            estimate::lemma_total_last(kept);
            if n < tokens.len() {
                let more = tokens.skip(tokens.len() - n - 1);
                assert(more.drop_last() =~= init.skip(init.len() - m - 1));
                assert(more.last() == tokens.last());
                estimate::lemma_total_last(more);
            }
        }
    }
}

/// Lines that are shown stand below a heading, each on a line of its own.
pub proof fn law_lines_are_stacked(lines: Seq<Seq<char>>, line: Seq<char>)
    ensures
        stacked(Seq::<Seq<char>>::empty()) == "[群聊最近消息]\n"@,
        stacked(lines.push(line)) == stacked(lines) + line + "\n"@,
{
    assert(lines.push(line).drop_last() =~= lines);
}

/// A message of a known moment is labelled with it, in brackets and to the minute; one of
/// no known moment is not, and a known sender is named behind the label.
pub proof fn law_moments_are_labelled(s: Seq<char>, ts: i64, sender: i64)
    requires
        is_history_label(s, ts),
    ensures
        ts <= 0 ==> s.len() == 0,
        ts > 0 && clock::in_calendar(ts as int) ==> s.len() == 14 && s[0] == '[' && s[12] == ']' && s[13] == ' ',
        sender > 0 ==> prefix_of(s, sender) == s + "[QQ"@ + number::dec(sender as int) + "] "@,
        sender <= 0 ==> prefix_of(s, sender) == s,
{
    if ts > 0 && clock::in_calendar(ts as int) {
        let offset = choose|offset: int| #[trigger] clock::is_minute_of(s, ts as int, offset);
        assert(s == clock::minute_of(ts + offset));
    }
    if sender > 0 {
        assert(prefix_of(s, sender) =~= s + "[QQ"@ + number::dec(sender as int) + "] "@);
    } else {
        assert(prefix_of(s, sender) =~= s);
    }
}

} // verus!
