//! Commands that users give in a conversation.

use vstd::prelude::*;
use vstd::string::*;
use crate::agent::tools::is_among;
use crate::config::Config;
use crate::memory;
use crate::memory::{MemoryEntryView, MemoryStore};
use crate::napcat::MsgKind;
use crate::number;
use crate::session;
use crate::session::{Session, SessionView};
use crate::text;

verus! {

/// What a command asks for beyond its session.
pub enum Effect {
    Nothing,
    /// What was said lately in the group is to be forgotten, too.
    ClearTrail,
    MemoryChanged,
    SetModel(String),
    SetPrompt(String),
    /// The session is to be silent from now on, or no longer.
    SetPaused(bool),
}

pub enum EffectView {
    Nothing,
    ClearTrail,
    MemoryChanged,
    SetModel(Seq<char>),
    SetPrompt(Seq<char>),
    SetPaused(bool),
}

impl View for Effect {
    type V = EffectView;

    open spec fn view(&self) -> EffectView {
        match self {
            Effect::Nothing => EffectView::Nothing,
            Effect::ClearTrail => EffectView::ClearTrail,
            Effect::MemoryChanged => EffectView::MemoryChanged,
            Effect::SetModel(s) => EffectView::SetModel(s@),
            Effect::SetPrompt(s) => EffectView::SetPrompt(s@),
            Effect::SetPaused(on) => EffectView::SetPaused(*on),
        }
    }
}

/// A command that was carried out.
pub struct CommandDone {
    pub reply: String,
    pub effect: Effect,
}

/// A command carried out: the session after it, the reply and the effect.
pub struct Outcome {
    pub session: SessionView,
    pub reply: Seq<char>,
    pub effect: EffectView,
}

pub open spec fn answer(s: SessionView, reply: Seq<char>) -> Outcome {
    Outcome { session: s, reply, effect: EffectView::Nothing }
}

/// The reply to a question for the size of the session.
pub open spec fn stats_reply(s: SessionView) -> Seq<char> {
    "📊 当前会话:"@ + number::dec(s.history.len() as int) + " 条消息,约 "@ + number::dec(
        session::session_total(s),
    ) + " tokens"@ + (if s.summary is Some {
        "(含摘要)"@
    } else {
        ""@
    })
}

/// Something to be remembered.
pub open spec fn remember_outcome(s: SessionView, cfg: Config, rest: Seq<char>, now: i64) -> Outcome {
    let content = text::trim_of(rest);
    if content.len() == 0 {
        answer(s, "用法:/remember <内容>"@)
    } else if memory::remembers(s.memory, content) {
        answer(s, "这条记忆为空或已存在。"@)
    } else {
        Outcome {
            session: SessionView {
                memory: memory::with_entry(
                    s.memory,
                    MemoryEntryView { ts: now, source: "user"@, text: content },
                    cfg.chat.memory.max_entries as int,
                    cfg.chat.memory.max_entry_chars as int,
                ),
                ..s
            },
            reply: "🧠 已记住: "@ + content,
            effect: EffectView::MemoryChanged,
        }
    }
}

/// The numbers in some parts of a list, empty parts left out; none where a part is no
/// number.
pub open spec fn numbers_of(parts: Seq<Seq<char>>) -> Option<Seq<int>>
    decreases parts.len(),
{
    if parts.len() == 0 {
        Some(Seq::<int>::empty())
    } else {
        let p = text::trim_of(parts.last());
        match numbers_of(parts.drop_last()) {
            None => None,
            Some(init) => if p.len() == 0 {
                Some(init)
            } else {
                match number::parse_unsigned_of(p, usize::MAX as int) {
                    Some(n) => Some(init.push(n)),
                    None => None,
                }
            },
        }
    }
}

/// The first `n` entries without those whose numbers, counted from one, are given.
pub open spec fn kept_of(items: Seq<MemoryEntryView>, numbers: Seq<int>, n: int) -> Seq<MemoryEntryView>
    decreases n,
{
    if n <= 0 {
        Seq::<MemoryEntryView>::empty()
    } else if numbers.contains(n) {
        kept_of(items, numbers, n - 1)
    } else {
        kept_of(items, numbers, n - 1).push(items[n - 1])
    }
}

/// Entries to be forgotten, by their numbers.
pub open spec fn forget_outcome(s: SessionView, rest: Seq<char>) -> Outcome {
    let usage = answer(s, "用法:/forget <序号,逗号分隔,如 1,3>"@);
    match numbers_of(text::split_of(text::trim_of(rest), ',')) {
        None => usage,
        Some(numbers) => if numbers.len() == 0 {
            usage
        } else {
            let kept = kept_of(s.memory, numbers, s.memory.len() as int);
            let removed = s.memory.len() - kept.len();
            if removed > 0 {
                Outcome {
                    session: SessionView { memory: kept, ..s },
                    reply: "🗑️ 已删除 "@ + number::dec(removed) + " 条记忆。"@,
                    effect: EffectView::MemoryChanged,
                }
            } else {
                answer(s, "未找到匹配的序号。"@)
            }
        },
    }
}

/// One entry in the list of what is remembered.
pub open spec fn memory_line(e: MemoryEntryView, n: int) -> Seq<char> {
    number::dec(n) + ". ["@ + memory::origin_of(e.source) + " "@ + memory::date_of(e.ts) + "] "@ + e.text
        + "\n"@
}

pub open spec fn memory_lines(items: Seq<MemoryEntryView>) -> Seq<char>
    decreases items.len(),
{
    if items.len() == 0 {
        Seq::<char>::empty()
    } else {
        memory_lines(items.drop_last()) + memory_line(items.last(), items.len() as int)
    }
}

pub open spec fn memories_reply(s: SessionView, kind: MsgKind) -> Seq<char> {
    if s.memory.len() == 0 {
        "🧠 暂无记忆。"@
    } else {
        "🧠 "@ + (if kind == MsgKind::Group {
            "本群"@
        } else {
            "本会话"@
        }) + "长期记忆("@ + number::dec(s.memory.len() as int) + " 条):\n"@ + memory_lines(s.memory)
            + "\n💡 添加:/remember <内容> · 删除:/forget <序号,如 1,3>"@
    }
}

pub open spec fn model_names(cfg: Config) -> Seq<Seq<char>> {
    cfg.models@.map_values(|m: crate::config::ModelConfig| m.name@)
}

pub open spec fn prompt_ids(cfg: Config) -> Seq<Seq<char>> {
    cfg.prompts@.map_values(|p: crate::config::PromptPreset| p.id@)
}

/// A choice among names.
pub open spec fn choice_outcome(
    s: SessionView,
    rest: Seq<char>,
    names: Seq<Seq<char>>,
    what: Seq<char>,
    effect: EffectView,
) -> Outcome {
    let name = text::trim_of(rest);
    if names.contains(name) {
        Outcome { session: s, reply: "✅ 已切换"@ + what + ": "@ + name, effect }
    } else {
        answer(s, "❌ 未找到"@ + what + " "@ + name + ",可用: "@ + text::join_of(names, ", "@))
    }
}

/// What a command comes to; none where the text is no command.
pub open spec fn command_of(s: SessionView, cfg: Config, kind: MsgKind, cmd: Seq<char>, now: i64) -> Option<
    Outcome,
> {
    if cmd == "/clear"@ {
        Some(
            Outcome {
                session: session::emptied(s),
                reply: "🧹 上下文与群聊轨迹已清空,重新开始对话。"@,
                effect: EffectView::ClearTrail,
            },
        )
    } else if cmd == "/stats"@ {
        Some(answer(s, stats_reply(s)))
    } else if let Some(rest) = text::strip_prefix_of(cmd, "/remember "@) {
        Some(remember_outcome(s, cfg, rest, now))
    } else if let Some(rest) = text::strip_prefix_of(cmd, "/forget "@) {
        Some(forget_outcome(s, rest))
    } else if cmd == "/memories"@ {
        Some(answer(s, memories_reply(s, kind)))
    } else if cmd == "/model"@ {
        Some(answer(s, "可用模型: "@ + text::join_of(model_names(cfg), ", "@)))
    } else if let Some(rest) = text::strip_prefix_of(cmd, "/model "@) {
        Some(
            choice_outcome(
                s,
                rest,
                model_names(cfg),
                "模型"@,
                EffectView::SetModel(text::trim_of(rest)),
            ),
        )
    } else if cmd == "/prompt"@ {
        Some(answer(s, "可用人设: "@ + text::join_of(prompt_ids(cfg), ", "@)))
    } else if let Some(rest) = text::strip_prefix_of(cmd, "/prompt "@) {
        Some(
            choice_outcome(
                s,
                rest,
                prompt_ids(cfg),
                "人设"@,
                EffectView::SetPrompt(text::trim_of(rest)),
            ),
        )
    } else if cmd == "/pause"@ {
        Some(
            Outcome {
                session: s,
                reply: "⏸ 本会话已暂停回复,仅接收消息;发送 /resume 恢复。"@,
                effect: EffectView::SetPaused(true),
            },
        )
    } else if cmd == "/resume"@ {
        Some(
            Outcome {
                session: s,
                reply: "▶ 本会话已恢复回复。"@,
                effect: EffectView::SetPaused(false),
            },
        )
    } else {
        None
    }
}

/// What was done is what the outcome says.
pub open spec fn is_done(done: CommandDone, after: SessionView, o: Outcome) -> bool {
    after == o.session && done.reply@ == o.reply && done.effect@ == o.effect
}

fn plain_reply(reply: String) -> (r: CommandDone)
    ensures
        r.reply@ == reply@,
        r.effect@ == EffectView::Nothing,
{
    CommandDone { reply, effect: Effect::Nothing }
}

fn do_remember(s: &mut Session, cfg: &Config, rest: &str, now: i64) -> (r: CommandDone)
    ensures
        is_done(r, final(s)@, remember_outcome(old(s)@, *cfg, rest@, now)),
{
    let content = text::trim(rest);
    if content.is_empty() {
        return plain_reply("用法:/remember <内容>".to_owned());
    }
    proof {
        text::lemma_trim_twice(rest@);
    }
    let ok = s.memory.add_at(
        content,
        "user",
        cfg.chat.memory.max_entries as usize,
        cfg.chat.memory.max_entry_chars as usize,
        now,
    );
    if ok {
        let mut reply = "🧠 已记住: ".to_owned();
        reply.append(content);
        CommandDone { reply, effect: Effect::MemoryChanged }
    } else {
        plain_reply("这条记忆为空或已存在。".to_owned())
    }
}

/// The numbers of a list; none where an entry is no number.
fn read_numbers(list: &str) -> (r: Option<Vec<usize>>)
    ensures
        match r {
            Some(v) => numbers_of(text::split_of(list@, ',')) == Some(
                v@.map_values(|n: usize| n as int),
            ),
            None => numbers_of(text::split_of(list@, ',')) is None,
        },
{
    let parts = text::split(list, ',');
    let ghost all = text::views(parts@);
    let mut v: Vec<usize> = Vec::new();
    let mut ok = true;
    let mut i: usize = 0;
    assert(v@.map_values(|n: usize| n as int) =~= Seq::<int>::empty());
    while i < parts.len()
        invariant
            i <= parts@.len(),
            all == text::views(parts@),
            ok ==> numbers_of(all.take(i as int)) == Some(v@.map_values(|n: usize| n as int)),
            !ok ==> numbers_of(all.take(i as int)) is None,
        decreases parts@.len() - i,
    {
        let p = text::trim(parts[i].as_str());
        proof {
            assert(all.take(i + 1).drop_last() == all.take(i as int));
            assert(all.take(i + 1).last() == parts@[i as int]@);
        }
        if !p.is_empty() {
            match number::parse_usize(p) {
                Some(n) => {
                    let ghost before = v@;
                    v.push(n);
                    assert(v@.map_values(|n: usize| n as int) =~= before.map_values(
                        |n: usize| n as int,
                    ).push(n as int));
                },
                None => {
                    ok = false;
                },
            }
        }
        i += 1;
    }
    assert(all.take(all.len() as int) == all);
    if ok {
        Some(v)
    } else {
        None
    }
}

fn includes_number(v: &Vec<usize>, n: usize) -> (r: bool)
    ensures
        r == v@.map_values(|x: usize| x as int).contains(n as int),
{
    let ghost all = v@.map_values(|x: usize| x as int);
    let mut i: usize = 0;
    while i < v.len()
        invariant
            i <= v@.len(),
            all == v@.map_values(|x: usize| x as int),
            forall|k: int| 0 <= k < i ==> #[trigger] all[k] != n,
        decreases v@.len() - i,
    {
        if v[i] == n {
            assert(all[i as int] == n);
            return true;
        }
        i += 1;
    }
    false
}

fn remove_numbers(m: &mut MemoryStore, numbers: &Vec<usize>) -> (r: usize)
    ensures
        ({
            let all = old(m).items();
            let kept = kept_of(all, numbers@.map_values(|x: usize| x as int), all.len() as int);
            final(m).items() == kept && r == all.len() - kept.len()
        }),
        final(m).file == old(m).file,
{
    let ghost all = m.items();
    let ghost ns = numbers@.map_values(|x: usize| x as int);
    let total: usize = m.entries.len();
    assert(all.len() == total);
    let mut n: usize = 0;
    let mut at: usize = 0;
    assert(m.items() =~= kept_of(all, ns, 0) + all.skip(0));
    while n < total
        invariant
            n <= total,
            total == all.len(),
            ns == numbers@.map_values(|x: usize| x as int),
            at == kept_of(all, ns, n as int).len(),
            at <= n,
            m.items() == kept_of(all, ns, n as int) + all.skip(n as int),
            m.file == old(m).file,
        decreases total - n,
    {
        let ghost kept = kept_of(all, ns, n as int);
        if includes_number(numbers, n + 1) {
            proof {
                assert((kept + all.skip(n as int)).remove(at as int) =~= kept + all.skip(n + 1));
            }
            m.remove_index(at + 1);
        } else {
            proof {
                assert(kept + all.skip(n as int) =~= kept.push(all[n as int]) + all.skip(n + 1));
            }
            at += 1;
        }
        n += 1;
    }
    assert(m.items() =~= kept_of(all, ns, total as int));
    total - at
}

fn do_forget(s: &mut Session, rest: &str) -> (r: CommandDone)
    ensures
        is_done(r, final(s)@, forget_outcome(old(s)@, rest@)),
{
    let numbers = match read_numbers(text::trim(rest)) {
        Some(v) => v,
        None => {
            return plain_reply("用法:/forget <序号,逗号分隔,如 1,3>".to_owned());
        },
    };
    assert(numbers@.map_values(|n: usize| n as int).len() == numbers@.len());
    if numbers.len() == 0 {
        return plain_reply("用法:/forget <序号,逗号分隔,如 1,3>".to_owned());
    }
    let ghost before = s@.memory;
    proof {
        lemma_kept_same(before, numbers@.map_values(|n: usize| n as int), before.len() as int);
        assert(before.take(before.len() as int) == before);
    }
    let removed: usize = remove_numbers(&mut s.memory, &numbers);
    if removed > 0 {
        let mut reply = "🗑️ 已删除 ".to_owned();
        reply.append(number::usize_text(removed).as_str());
        reply.append(" 条记忆。");
        CommandDone { reply, effect: Effect::MemoryChanged }
    } else {
        plain_reply("未找到匹配的序号。".to_owned())
    }
}

/// Where nothing goes, everything stays.
proof fn lemma_kept_same(items: Seq<MemoryEntryView>, numbers: Seq<int>, n: int)
    requires
        0 <= n <= items.len(),
    ensures
        kept_of(items, numbers, n).len() <= n,
        kept_of(items, numbers, n).len() == n ==> kept_of(items, numbers, n) == items.take(n),
    decreases n,
{
    if n > 0 {
        lemma_kept_same(items, numbers, n - 1);
        if kept_of(items, numbers, n).len() == n {
            assert(items.take(n) =~= items.take(n - 1).push(items[n - 1]));
        }
    } else {
        assert(items.take(0) =~= kept_of(items, numbers, 0));
    }
}

fn list_memories(s: &Session, kind: MsgKind) -> (r: String)
    ensures
        r@ == memories_reply(s@, kind),
{
    let ghost items = s@.memory;
    assert(items.len() == s.memory.entries@.len());
    if s.memory.entries.len() == 0 {
        return "🧠 暂无记忆。".to_owned();
    }
    let mut t = "🧠 ".to_owned();
    if kind == MsgKind::Group {
        t.append("本群");
    } else {
        t.append("本会话");
    }
    t.append("长期记忆(");
    t.append(number::usize_text(s.memory.entries.len()).as_str());
    t.append(" 条):\n");
    let ghost head = t@;
    let mut i: usize = 0;
    assert(head + memory_lines(items.take(0)) =~= head);
    while i < s.memory.entries.len()
        invariant
            i <= s.memory.entries@.len(),
            items == s@.memory,
            items.len() == s.memory.entries@.len(),
            t@ == head + memory_lines(items.take(i as int)),
        decreases s.memory.entries@.len() - i,
    {
        let e = &s.memory.entries[i];
        let ghost before = t@;
        t.append(number::usize_text(i + 1).as_str());
        t.append(". [");
        t.append(memory::origin_label(e.source.as_str()));
        t.append(" ");
        t.append(memory::fmt_ts(e.ts).as_str());
        t.append("] ");
        t.append(e.text.as_str());
        t.append("\n");
        proof {
            assert(items[i as int] == e@);
            assert(t@ =~= before + memory_line(e@, i + 1));
            assert(items.take(i + 1).drop_last() == items.take(i as int));
            assert(items.take(i + 1).last() == e@);
            assert(t@ =~= head + memory_lines(items.take(i + 1)));
        }
        i += 1;
    }
    assert(items.take(items.len() as int) == items);
    t.append("\n💡 添加:/remember <内容> · 删除:/forget <序号,如 1,3>");
    t
}

fn names_of_models(cfg: &Config) -> (r: Vec<String>)
    ensures
        text::views(r@) == model_names(*cfg),
{
    let mut r: Vec<String> = Vec::new();
    let mut i: usize = 0;
    while i < cfg.models.len()
        invariant
            i <= cfg.models@.len(),
            r@.len() == i,
            forall|k: int| 0 <= k < i ==> (#[trigger] r@[k])@ == cfg.models@[k].name@,
        decreases cfg.models@.len() - i,
    {
        r.push(cfg.models[i].name.clone());
        i += 1;
    }
    assert(text::views(r@) =~= model_names(*cfg));
    r
}

fn ids_of_prompts(cfg: &Config) -> (r: Vec<String>)
    ensures
        text::views(r@) == prompt_ids(*cfg),
{
    let mut r: Vec<String> = Vec::new();
    let mut i: usize = 0;
    while i < cfg.prompts.len()
        invariant
            i <= cfg.prompts@.len(),
            r@.len() == i,
            forall|k: int| 0 <= k < i ==> (#[trigger] r@[k])@ == cfg.prompts@[k].id@,
        decreases cfg.prompts@.len() - i,
    {
        r.push(cfg.prompts[i].id.clone());
        i += 1;
    }
    assert(text::views(r@) =~= prompt_ids(*cfg));
    r
}

fn choose_name(s: &Session, rest: &str, names: &Vec<String>, what: &str, model: bool) -> (r: CommandDone)
    ensures
        is_done(
            r,
            s@,
            choice_outcome(
                s@,
                rest@,
                text::views(names@),
                what@,
                if model {
                    EffectView::SetModel(text::trim_of(rest@))
                } else {
                    EffectView::SetPrompt(text::trim_of(rest@))
                },
            ),
        ),
{
    let name = text::trim(rest);
    if is_among(names, name) {
        let mut reply = "✅ 已切换".to_owned();
        reply.append(what);
        reply.append(": ");
        reply.append(name);
        let effect = if model {
            Effect::SetModel(name.to_owned())
        } else {
            Effect::SetPrompt(name.to_owned())
        };
        CommandDone { reply, effect }
    } else {
        let mut reply = "❌ 未找到".to_owned();
        reply.append(what);
        reply.append(" ");
        reply.append(name);
        reply.append(",可用: ");
        reply.append(text::join(names, ", ").as_str());
        plain_reply(reply)
    }
}

/// Carries out a command; gives nothing where the text is none. The memory of the
/// session is as it was last read from its file, and `now` is the present moment.
pub fn handle_command(s: &mut Session, cfg: &Config, kind: MsgKind, cmd: &str, now: i64) -> (r: Option<
    CommandDone,
>)
    ensures
        match command_of(old(s)@, *cfg, kind, cmd@, now) {
            Some(o) => r matches Some(done) && is_done(done, final(s)@, o),
            None => r is None && final(s)@ == old(s)@,
        },
{
    if text::same(cmd, "/clear") {
        s.clear();
        return Some(
            CommandDone {
                reply: "🧹 上下文与群聊轨迹已清空,重新开始对话。".to_owned(),
                effect: Effect::ClearTrail,
            },
        );
    }
    if text::same(cmd, "/stats") {
        assert(s@.history.len() == s.history@.len());
        let mut reply = "📊 当前会话:".to_owned();
        reply.append(number::usize_text(s.history.len()).as_str());
        reply.append(" 条消息,约 ");
        reply.append(number::u64_text(s.total_tokens()).as_str());
        reply.append(" tokens");
        if s.summary.is_some() {
            reply.append("(含摘要)");
        } else {
            reply.append("");
        }
        return Some(plain_reply(reply));
    }
    if let Some(rest) = text::strip_prefix(cmd, "/remember ") {
        return Some(do_remember(s, cfg, rest, now));
    }
    if let Some(rest) = text::strip_prefix(cmd, "/forget ") {
        return Some(do_forget(s, rest));
    }
    if text::same(cmd, "/memories") {
        return Some(plain_reply(list_memories(s, kind)));
    }
    if text::same(cmd, "/model") {
        let mut reply = "可用模型: ".to_owned();
        reply.append(text::join(&names_of_models(cfg), ", ").as_str());
        return Some(plain_reply(reply));
    }
    if let Some(rest) = text::strip_prefix(cmd, "/model ") {
        return Some(choose_name(s, rest, &names_of_models(cfg), "模型", true));
    }
    if text::same(cmd, "/prompt") {
        let mut reply = "可用人设: ".to_owned();
        reply.append(text::join(&ids_of_prompts(cfg), ", ").as_str());
        return Some(plain_reply(reply));
    }
    if let Some(rest) = text::strip_prefix(cmd, "/prompt ") {
        return Some(choose_name(s, rest, &ids_of_prompts(cfg), "人设", false));
    }
    if text::same(cmd, "/pause") {
        return Some(
            CommandDone {
                reply: "⏸ 本会话已暂停回复,仅接收消息;发送 /resume 恢复。".to_owned(),
                effect: Effect::SetPaused(true),
            },
        );
    }
    if text::same(cmd, "/resume") {
        return Some(
            CommandDone {
                reply: "▶ 本会话已恢复回复。".to_owned(),
                effect: Effect::SetPaused(false),
            },
        );
    }
    None
}

// ---------- laws ----------

/// A command never touches what was said in the conversation, except the one that
/// clears it, and never the memory, except those about it.
pub proof fn law_commands_keep_to_their_own(
    s: SessionView,
    cfg: Config,
    kind: MsgKind,
    cmd: Seq<char>,
    now: i64,
)
    ensures
        command_of(s, cfg, kind, cmd, now) matches Some(o) ==> {
            &&& o.effect != EffectView::ClearTrail ==> o.session.history == s.history
                && o.session.summary == s.summary
            &&& o.effect != EffectView::MemoryChanged ==> o.session.memory == s.memory
            &&& o.session.key == s.key && o.session.file == s.file
        },
{
}

/// The two commands about the pause are always there, and what they ask for is the pause
/// and nothing else.
pub proof fn law_pause_is_at_command(s: SessionView, cfg: Config, kind: MsgKind, now: i64)
    ensures
        command_of(s, cfg, kind, "/pause"@, now) matches Some(o) && o.session == s && o.effect
            == EffectView::SetPaused(true),
        command_of(s, cfg, kind, "/resume"@, now) matches Some(o) && o.session == s && o.effect
            == EffectView::SetPaused(false),
        forall|cmd: Seq<char>|
            #![trigger command_of(s, cfg, kind, cmd, now)]
            match command_of(s, cfg, kind, cmd, now) {
                Some(o) => o.effect is SetPaused ==> cmd == "/pause"@ || cmd == "/resume"@,
                None => true,
            },
{
    reveal_strlit("/pause");
    reveal_strlit("/resume");
    reveal_strlit("/clear");
    reveal_strlit("/stats");
    reveal_strlit("/remember ");
    reveal_strlit("/forget ");
    reveal_strlit("/memories");
    reveal_strlit("/model");
    reveal_strlit("/model ");
    reveal_strlit("/prompt");
    reveal_strlit("/prompt ");
    assert("/pause"@.len() == 6 && "/pause"@[2] == 'a');
    assert("/resume"@.len() == 7 && "/resume"@[3] == 's');
    assert("/clear"@.len() == 6 && "/clear"@[2] == 'l');
    assert("/stats"@.len() == 6 && "/stats"@[2] == 't');
    assert("/memories"@.len() == 9);
    assert("/model"@.len() == 6 && "/model"@[2] == 'o');
    assert("/prompt"@.len() == 7 && "/prompt"@[3] == 'o');
    assert("/remember "@.len() == 10 && "/forget "@.len() == 8);
    assert("/model "@.len() == 7 && "/model "@[1] == 'm' && "/resume"@[1] == 'r');
    assert("/prompt "@.len() == 8);
    assert("/resume"@.take(7) =~= "/resume"@);
}

/// Forgetting goes by the numbers that were shown: an entry stays exactly if its number
/// is not among those given, and those that stay keep their order.
pub proof fn law_forget_by_number(items: Seq<MemoryEntryView>, numbers: Seq<int>, n: int)
    requires
        0 <= n <= items.len(),
    ensures
        kept_of(items, numbers, n).len() <= n,
        forall|i: int|
            0 <= i < n && !numbers.contains(i + 1) ==> kept_of(items, numbers, n).contains(
                #[trigger] items[i],
            ),
        forall|j: int|
            0 <= j < kept_of(items, numbers, n).len() ==> exists|i: int|
                0 <= i < n && !numbers.contains(i + 1) && #[trigger] items[i] == (
                #[trigger] kept_of(items, numbers, n)[j]),
    decreases n,
{
    if n > 0 {
        law_forget_by_number(items, numbers, n - 1);
        let before = kept_of(items, numbers, n - 1);
        let after = kept_of(items, numbers, n);
        assert forall|i: int| 0 <= i < n && !numbers.contains(i + 1) implies after.contains(
            #[trigger] items[i],
        ) by {
            if i < n - 1 {
                assert(before.contains(items[i]));
                let k = choose|k: int| 0 <= k < before.len() && before[k] == items[i];
                assert(after[k] == items[i]);
            } else {
                assert(after[before.len() as int] == items[i]);
            }
        }
        assert forall|j: int| 0 <= j < after.len() implies exists|i: int|
            0 <= i < n && !numbers.contains(i + 1) && #[trigger] items[i] == (#[trigger] after[j]) by {
            if j < before.len() {
                assert(after[j] == before[j]);
                let i = choose|i: int|
                    0 <= i < n - 1 && !numbers.contains(i + 1) && #[trigger] items[i] == before[j];
                assert(0 <= i < n && items[i] == after[j]);
            } else {
                assert(items[n - 1] == after[j]);
            }
        }
    }
}

/// The words of the commands differ, and none begins like another that takes something
/// behind it.
proof fn lemma_command_words()
    ensures
        "/clear"@.len() == 6 && "/clear"@[0] == '/' && "/clear"@[1] == 'c',
        "/stats"@.len() == 6 && "/stats"@[0] == '/' && "/stats"@[1] == 's',
        "/remember "@.len() == 10 && "/remember "@[0] == '/' && "/remember "@[1] == 'r' && "/remember "@[3] == 'm',
        "/forget "@.len() == 8 && "/forget "@[0] == '/' && "/forget "@[1] == 'f',
        "/memories"@.len() == 9 && "/memories"@[0] == '/' && "/memories"@[1] == 'm' && "/memories"@[2] == 'e',
        "/model"@.len() == 6 && "/model"@[0] == '/' && "/model"@[1] == 'm' && "/model"@[2] == 'o',
        "/model "@.len() == 7 && "/model "@[0] == '/' && "/model "@[1] == 'm' && "/model "@[2] == 'o',
        "/prompt"@.len() == 7 && "/prompt"@[0] == '/' && "/prompt"@[1] == 'p' && "/prompt"@[2] == 'r',
        "/prompt "@.len() == 8 && "/prompt "@[0] == '/' && "/prompt "@[1] == 'p' && "/prompt "@[2] == 'r',
        "/pause"@.len() == 6 && "/pause"@[0] == '/' && "/pause"@[1] == 'p' && "/pause"@[2] == 'a',
        "/resume"@.len() == 7 && "/resume"@[0] == '/' && "/resume"@[1] == 'r' && "/resume"@[3] == 's',
{
    reveal_strlit("/pause");
    reveal_strlit("/resume");
    reveal_strlit("/clear");
    reveal_strlit("/stats");
    reveal_strlit("/remember ");
    reveal_strlit("/forget ");
    reveal_strlit("/memories");
    reveal_strlit("/model");
    reveal_strlit("/model ");
    reveal_strlit("/prompt");
    reveal_strlit("/prompt ");
}

/// Only what begins with a slash is a command.
pub proof fn law_commands_begin_with_a_slash(s: SessionView, cfg: Config, kind: MsgKind, cmd: Seq<char>, now: i64)
    requires
        cmd.len() == 0 || cmd[0] != '/',
    ensures
        command_of(s, cfg, kind, cmd, now) is None,
{
    lemma_command_words();
    if text::begins(cmd, "/remember "@) {
        assert(cmd.take(10)[0] == cmd[0]);
    }
    if text::begins(cmd, "/forget "@) {
        assert(cmd.take(8)[0] == cmd[0]);
    }
    if text::begins(cmd, "/model "@) {
        assert(cmd.take(7)[0] == cmd[0]);
    }
    if text::begins(cmd, "/prompt "@) {
        assert(cmd.take(8)[0] == cmd[0]);
    }
}

/// The command to clear leaves nothing of the conversation and all of the memory.
pub proof fn law_clear_clears(s: SessionView, cfg: Config, kind: MsgKind, now: i64)
    ensures
        match command_of(s, cfg, kind, "/clear"@, now) {
            Some(o) => o.session.history.len() == 0 && o.session.summary is None && o.session.memory == s.memory
                && o.effect == EffectView::ClearTrail,
            None => false,
        },
{
    session::law_clearing_keeps_the_rest(s);
}

/// What a user tells the bot to remember is remembered: in the user's name, at the present
/// moment, in the words given, and the reply repeats them. What is there already is not
/// taken up again.
pub proof fn law_told_is_remembered(s: SessionView, cfg: Config, kind: MsgKind, words: Seq<char>, now: i64)
    ensures
        ({
            let t = text::trim_of(words);
            match command_of(s, cfg, kind, "/remember "@ + words, now) {
                Some(o) => {
                    &&& t.len() > 0 && !memory::remembers(s.memory, t) ==> {
                        &&& o.effect == EffectView::MemoryChanged
                        &&& text::ends(o.reply, t)
                        &&& o.session.memory.len() > 0
                        &&& o.session.memory.last().ts == now
                        &&& o.session.memory.last().source == "user"@
                        &&& t.len() <= cfg.chat.memory.max_entry_chars ==> o.session.memory.last().text == t
                        &&& s.memory.len() < cfg.chat.memory.max_entries ==> o.session.memory.drop_last() == s.memory
                    }
                    &&& t.len() == 0 || memory::remembers(s.memory, t) ==> o.session == s && o.effect
                        == EffectView::Nothing
                },
                None => false,
            }
        }),
{
    lemma_command_words();
    let pat = "/remember "@;
    let cmd = pat + words;
    text::law_occurrence(Seq::<char>::empty(), pat, words);
    assert(cmd[0] == '/' && cmd[1] == 'r');
    let t = text::trim_of(words);
    assert(command_of(s, cfg, kind, cmd, now) == Some(remember_outcome(s, cfg, words, now)));
    if t.len() > 0 && !memory::remembers(s.memory, t) {
        let e = MemoryEntryView { ts: now, source: "user"@, text: t };
        memory::law_entry_says_what_was_said(
            s.memory,
            e,
            cfg.chat.memory.max_entries as int,
            cfg.chat.memory.max_entry_chars as int,
        );
        let o = remember_outcome(s, cfg, words, now);
        assert(o.reply.skip(o.reply.len() - t.len()) =~= t);
        if s.memory.len() < cfg.chat.memory.max_entries {
            assert(o.session.memory.drop_last() =~= s.memory);
        }
    }
}

/// One number takes out the entry of that number and no other.
pub proof fn law_one_number_takes_out_one(items: Seq<MemoryEntryView>, k: int, n: int)
    requires
        0 <= n <= items.len(),
    ensures
        1 <= k <= n ==> kept_of(items, seq![k], n) == items.take(n).remove(k - 1),
        k < 1 || k > n ==> kept_of(items, seq![k], n) == items.take(n),
    decreases n,
{
    assert(seq![k][0] == k);
    assert(seq![k].contains(k));
    if n > 0 {
        law_one_number_takes_out_one(items, k, n - 1);
        assert(items.take(n).drop_last() =~= items.take(n - 1));
        let after = kept_of(items, seq![k], n);
        if k == n {
            assert(after =~= items.take(n).remove(k - 1));
        } else {
            assert(!seq![k].contains(n));
            if 1 <= k < n {
                assert(after =~= items.take(n).remove(k - 1));
            } else {
                assert(after =~= items.take(n));
            }
        }
    } else {
        assert(items.take(0) =~= Seq::<MemoryEntryView>::empty());
    }
}

/// The numbers behind the command to forget are read one by one, with white space around
/// them and empty places left out; a single word that is no number stops it all.
pub proof fn law_numbers_are_read_one_by_one(parts: Seq<Seq<char>>, p: Seq<char>)
    ensures
        numbers_of(Seq::<Seq<char>>::empty()) == Some(Seq::<int>::empty()),
        numbers_of(parts) is None ==> numbers_of(parts.push(p)) is None,
        numbers_of(parts) matches Some(init) ==> {
            &&& text::trim_of(p).len() == 0 ==> numbers_of(parts.push(p)) == Some(init)
            &&& forall|n: u32|
                text::trim_of(p) == #[trigger] number::dec(n as int) ==> numbers_of(parts.push(p)) == Some(
                    init.push(n as int),
                )
        },
{
    assert(parts.push(p).drop_last() =~= parts);
    if numbers_of(parts) is Some {
        let init = numbers_of(parts)->0;
        assert forall|n: u32| text::trim_of(p) == #[trigger] number::dec(n as int) implies numbers_of(
            parts.push(p),
        ) == Some(init.push(n as int)) by {
            number::lemma_dec_nonempty(n as int);
            number::law_dec_reads_unsigned(n as nat, usize::MAX as int);
        }
    }
}

/// Forgetting tells how many entries have gone, changes the memory exactly where one has,
/// and leaves the conversation alone.
pub proof fn law_forgetting_is_told(s: SessionView, cfg: Config, kind: MsgKind, rest: Seq<char>, now: i64)
    ensures
        match command_of(s, cfg, kind, "/forget "@ + rest, now) {
            Some(o) => {
                &&& o.session.history == s.history
                &&& o.session.memory.len() <= s.memory.len()
                &&& o.session.memory == s.memory <==> o.effect == EffectView::Nothing
                &&& o.session.memory != s.memory ==> o.effect == EffectView::MemoryChanged && text::includes(
                    o.reply,
                    number::dec(s.memory.len() - o.session.memory.len()),
                )
                &&& numbers_of(text::split_of(text::trim_of(rest), ',')) matches Some(ns) ==> o.session.memory
                    == kept_of(s.memory, ns, s.memory.len() as int) || ns.len() == 0
            },
            None => false,
        },
{
    lemma_command_words();
    let pat = "/forget "@;
    let cmd = pat + rest;
    text::law_occurrence(Seq::<char>::empty(), pat, rest);
    assert(cmd[0] == '/' && cmd[1] == 'f');
    if text::begins(cmd, "/remember "@) {
        assert(cmd.take(10)[1] == cmd[1]);
    }
    assert(command_of(s, cfg, kind, cmd, now) == Some(forget_outcome(s, rest)));
    match numbers_of(text::split_of(text::trim_of(rest), ',')) {
        Some(ns) => {
            let kept = kept_of(s.memory, ns, s.memory.len() as int);
            lemma_kept_same(s.memory, ns, s.memory.len() as int);
            assert(s.memory.take(s.memory.len() as int) =~= s.memory);
            let gone = number::dec(s.memory.len() - kept.len());
            text::law_occurrence("🗑️ 已删除 "@, gone, " 条记忆。"@);
        },
        None => {},
    }
}

/// Only a model or a persona of the list can be chosen, by the word for it, and every one
/// of the list can.
pub proof fn law_choice_is_among_the_names(s: SessionView, cfg: Config, kind: MsgKind, cmd: Seq<char>, now: i64)
    ensures
        match command_of(s, cfg, kind, cmd, now) {
            Some(o) => match o.effect {
                EffectView::SetModel(name) => text::begins(cmd, "/model "@) && text::ends(o.reply, name)
                    && exists|i: int| 0 <= i < cfg.models@.len() && (#[trigger] cfg.models@[i]).name@ == name,
                EffectView::SetPrompt(id) => text::begins(cmd, "/prompt "@) && text::ends(o.reply, id)
                    && exists|i: int| 0 <= i < cfg.prompts@.len() && (#[trigger] cfg.prompts@[i]).id@ == id,
                _ => true,
            },
            None => true,
        },
        forall|i: int|
            0 <= i < cfg.models@.len() && cmd == "/model "@ + (#[trigger] cfg.models@[i]).name@ && text::trim_of(
                cfg.models@[i].name@,
            ) == cfg.models@[i].name@ ==> (match command_of(s, cfg, kind, cmd, now) {
                Some(o) => o.effect == EffectView::SetModel(cfg.models@[i].name@) && o.session == s,
                None => false,
            }),
        forall|i: int|
            0 <= i < cfg.prompts@.len() && cmd == "/prompt "@ + (#[trigger] cfg.prompts@[i]).id@ && text::trim_of(
                cfg.prompts@[i].id@,
            ) == cfg.prompts@[i].id@ ==> (match command_of(s, cfg, kind, cmd, now) {
                Some(o) => o.effect == EffectView::SetPrompt(cfg.prompts@[i].id@) && o.session == s,
                None => false,
            }),
{
    lemma_command_words();
    if let Some(o) = command_of(s, cfg, kind, cmd, now) {
        match o.effect {
            EffectView::SetModel(name) => {
                let k = choose|k: int| 0 <= k < model_names(cfg).len() && model_names(cfg)[k] == name;
                assert(cfg.models@[k].name@ == name);
                assert(o.reply.skip(o.reply.len() - name.len()) =~= name);
            },
            EffectView::SetPrompt(id) => {
                let k = choose|k: int| 0 <= k < prompt_ids(cfg).len() && prompt_ids(cfg)[k] == id;
                assert(cfg.prompts@[k].id@ == id);
                assert(o.reply.skip(o.reply.len() - id.len()) =~= id);
            },
            _ => {},
        }
    }
    assert forall|i: int|
        0 <= i < cfg.models@.len() && cmd == "/model "@ + (#[trigger] cfg.models@[i]).name@ && text::trim_of(
            cfg.models@[i].name@,
        ) == cfg.models@[i].name@ implies (match command_of(s, cfg, kind, cmd, now) {
        Some(o) => o.effect == EffectView::SetModel(cfg.models@[i].name@) && o.session == s,
        None => false,
    }) by {
        let name = cfg.models@[i].name@;
        text::law_occurrence(Seq::<char>::empty(), "/model "@, name);
        assert(cmd[0] == '/' && cmd[1] == 'm' && cmd[2] == 'o');
        assert(model_names(cfg)[i] == name);
        if text::begins(cmd, "/remember "@) {
            assert(cmd.take(10)[1] == cmd[1]);
        }
        if text::begins(cmd, "/forget "@) {
            assert(cmd.take(8)[1] == cmd[1]);
        }
    }
    assert forall|i: int|
        0 <= i < cfg.prompts@.len() && cmd == "/prompt "@ + (#[trigger] cfg.prompts@[i]).id@ && text::trim_of(
            cfg.prompts@[i].id@,
        ) == cfg.prompts@[i].id@ implies (match command_of(s, cfg, kind, cmd, now) {
        Some(o) => o.effect == EffectView::SetPrompt(cfg.prompts@[i].id@) && o.session == s,
        None => false,
    }) by {
        let id = cfg.prompts@[i].id@;
        text::law_occurrence(Seq::<char>::empty(), "/prompt "@, id);
        assert(cmd[0] == '/' && cmd[1] == 'p' && cmd[2] == 'r');
        assert(prompt_ids(cfg)[i] == id);
        if text::begins(cmd, "/remember "@) {
            assert(cmd.take(10)[1] == cmd[1]);
        }
        if text::begins(cmd, "/forget "@) {
            assert(cmd.take(8)[1] == cmd[1]);
        }
        if text::begins(cmd, "/model "@) {
            assert(cmd.take(7)[1] == cmd[1]);
        }
    }
}

/// The size of the session is told as it is, and whether there is a summary.
pub proof fn law_size_is_told(s: SessionView)
    ensures
        text::includes(stats_reply(s), number::dec(s.history.len() as int)),
        text::includes(stats_reply(s), number::dec(session::session_total(s))),
        s.summary is Some ==> text::ends(stats_reply(s), "(含摘要)"@),
        s.summary is None ==> text::ends(stats_reply(s), " tokens"@),
{
    reveal_strlit("");
    let n = number::dec(s.history.len() as int);
    let t = number::dec(session::session_total(s));
    let tail = " tokens"@ + (if s.summary is Some {
        "(含摘要)"@
    } else {
        ""@
    });
    let r = stats_reply(s);
    assert(r =~= "📊 当前会话:"@ + n + (" 条消息,约 "@ + t + tail));
    text::law_occurrence("📊 当前会话:"@, n, " 条消息,约 "@ + t + tail);
    let a = "📊 当前会话:"@ + n + " 条消息,约 "@;
    assert(r =~= a + t + tail);
    text::law_occurrence(a, t, tail);
    if s.summary is Some {
        assert(r =~= (a + t + " tokens"@) + "(含摘要)"@);
        text::law_occurrence(a + t + " tokens"@, "(含摘要)"@, Seq::<char>::empty());
    } else {
        assert(r =~= (a + t) + " tokens"@);
        text::law_occurrence(a + t, " tokens"@, Seq::<char>::empty());
    }
}

/// The list of what is remembered holds every entry, under the number by which it is
/// forgotten, with its words.
pub proof fn law_list_of_memories(items: Seq<MemoryEntryView>, i: int)
    requires
        0 <= i < items.len(),
    ensures
        text::includes(memory_lines(items), memory_line(items[i], i + 1)),
        text::begins(memory_line(items[i], i + 1), number::dec(i + 1) + ". ["@),
        text::ends(memory_line(items[i], i + 1), items[i].text + "\n"@),
    decreases items.len(),
{
    let front = items.drop_last();
    let l = memory_line(items[i], i + 1);
    let all = memory_lines(items);
    if i < front.len() {
        law_list_of_memories(front, i);
        let k = choose|k: int| text::occurs_at(memory_lines(front), l, k);
        assert(all.subrange(k, k + l.len()) =~= memory_lines(front).subrange(k, k + l.len()));
        assert(text::occurs_at(all, l, k));
    } else {
        assert(all =~= memory_lines(front) + l + Seq::<char>::empty());
        text::law_occurrence(memory_lines(front), l, Seq::<char>::empty());
    }
    lemma_line_of_memory(items[i], i + 1);
}

proof fn lemma_line_of_memory(e: MemoryEntryView, n: int)
    ensures
        text::begins(memory_line(e, n), number::dec(n) + ". ["@),
        text::ends(memory_line(e, n), e.text + "\n"@),
{
    let h = number::dec(n) + ". ["@;
    let o = memory::origin_of(e.source);
    let d = memory::date_of(e.ts);
    let t = e.text + "\n"@;
    let mid = o + " "@ + d + "] "@;
    let l = memory_line(e, n);
    assert(l =~= h + (mid + t));
    assert(l =~= (h + mid) + t);
    text::law_occurrence(Seq::<char>::empty(), h, mid + t);
    text::law_occurrence(h + mid, t, Seq::<char>::empty());
}

/// The list of what is remembered tells how much there is, whose it is, and all of it.
pub proof fn law_memories_are_listed(s: SessionView, kind: MsgKind)
    requires
        s.memory.len() > 0,
    ensures
        kind == MsgKind::Group ==> text::begins(memories_reply(s, kind), "🧠 "@ + "本群"@),
        kind == MsgKind::Private ==> text::begins(memories_reply(s, kind), "🧠 "@ + "本会话"@),
        text::includes(memories_reply(s, kind), memory_lines(s.memory)),
        text::includes(memories_reply(s, kind), number::dec(s.memory.len() as int) + " 条"@),
{
    reveal_strlit(" 条");
    reveal_strlit(" 条):\n");
    let w = if kind == MsgKind::Group {
        "本群"@
    } else {
        "本会话"@
    };
    let n = number::dec(s.memory.len() as int);
    let m = memory_lines(s.memory);
    let e = "\n💡 添加:/remember <内容> · 删除:/forget <序号,如 1,3>"@;
    let r = memories_reply(s, kind);
    let h = "🧠 "@ + w;
    let a = h + "长期记忆("@;
    assert(r == a + n + " 条):\n"@ + m + e);
    assert(r.take(h.len() as int) =~= h);
    assert(" 条):\n"@.take(2) =~= " 条"@);
    lemma_two_stand(a, n, " 条):\n"@, m, e, " 条"@);
}

proof fn lemma_two_stand(a: Seq<char>, n: Seq<char>, b: Seq<char>, m: Seq<char>, e: Seq<char>, c: Seq<char>)
    requires
        text::begins(b, c),
    ensures
        text::includes(a + n + b + m + e, m),
        text::includes(a + n + b + m + e, n + c),
{
    let r = a + n + b + m + e;
    let i: int = (a.len() + n.len() + b.len()) as int;
    assert(r.subrange(i, i + m.len()) =~= m);
    assert(text::occurs_at(r, m, i));
    let j: int = a.len() as int;
    assert(b.take(c.len() as int) =~= c);
    assert forall|k: int| 0 <= k < c.len() implies b[k] == #[trigger] c[k] by {
        assert(b.take(c.len() as int)[k] == b[k]);
    }
    assert(r.subrange(j, j + (n + c).len()) =~= n + c);
    assert(text::occurs_at(r, n + c, j));
}

/// What was done is the outcome, in all of its parts.
pub proof fn law_outcome_is_what_was_done(done: CommandDone, after: SessionView, o: Outcome)
    requires
        is_done(done, after, o),
    ensures
        after.history == o.session.history && after.memory == o.session.memory && after.summary == o.session.summary,
        done.reply@ == o.reply,
        done.effect@ == o.effect,
{
}

} // verus!
