//! What the user interface asks for, and what it shows.

use vstd::prelude::*;
use vstd::string::*;
use crate::config;
use crate::config::Config;
use crate::memory;
use crate::memory::{MemoryEntryView, MemoryStore};
use crate::napcat;
use crate::events::FrontendEvent;
use crate::napcat::{BotEvent, ConnStatus, ParsedMsg, RequestInfo};
use crate::number;
use crate::text;

verus! {

// ---------- settings ----------

/// Another model before position `i` has the same name as the one there.
pub open spec fn name_taken(cfg: Config, i: int) -> bool {
    exists|j: int| 0 <= j < i && (#[trigger] cfg.models@[j]).name@ == cfg.models@[i].name@
}

/// What is wrong with the model at a position; `warm` says that its temperature is
/// within bounds.
pub open spec fn model_fault(cfg: Config, warm: Seq<bool>, i: int) -> Option<Seq<char>> {
    if text::trim_of(cfg.models@[i].name@).len() == 0 {
        Some("模型名称不能为空"@)
    } else if name_taken(cfg, i) {
        Some("模型名称重复: "@ + cfg.models@[i].name@)
    } else if !warm[i] {
        Some("温度需在 0~2 之间"@)
    } else {
        None
    }
}

/// What is wrong with the first model that something is wrong with, from `i` on.
pub open spec fn models_fault(cfg: Config, warm: Seq<bool>, i: int) -> Option<Seq<char>>
    decreases cfg.models@.len() - i,
{
    if i < 0 || i >= cfg.models@.len() {
        None
    } else {
        match model_fault(cfg, warm, i) {
            Some(e) => Some(e),
            None => models_fault(cfg, warm, i + 1),
        }
    }
}

/// What is wrong with the settings.
pub open spec fn config_fault(cfg: Config, warm: Seq<bool>) -> Option<Seq<char>> {
    if cfg.models@.len() == 0 {
        Some("至少需要一个模型配置"@)
    } else if let Some(e) = models_fault(cfg, warm, 0) {
        Some(e)
    } else if config::model_from(cfg.models@, cfg.active_model@, 0) is None {
        Some("当前激活模型不在模型列表中"@)
    } else if cfg.prompts@.len() == 0 {
        Some("至少需要一个人设"@)
    } else if config::prompt_from(cfg.prompts@, cfg.active_prompt@, 0) is None {
        Some("当前激活人设不在列表中"@)
    } else {
        None
    }
}

fn is_name_taken(cfg: &Config, i: usize) -> (r: bool)
    requires
        i < cfg.models@.len(),
    ensures
        r == name_taken(*cfg, i as int),
{
    let mut j: usize = 0;
    while j < i
        invariant
            j <= i < cfg.models@.len(),
            forall|k: int| 0 <= k < j ==> (#[trigger] cfg.models@[k]).name@ != cfg.models@[i as int].name@,
        decreases i - j,
    {
        if text::same(cfg.models[j].name.as_str(), cfg.models[i].name.as_str()) {
            assert(cfg.models@[j as int].name@ == cfg.models@[i as int].name@);
            return true;
        }
        j += 1;
    }
    false
}

/// Checks the settings before they are saved; `warm` says of each model whether its
/// temperature is within bounds.
pub fn validate_config(cfg: &Config, warm: &Vec<bool>) -> (r: Result<(), String>)
    requires
        warm@.len() == cfg.models@.len(),
    ensures
        match config_fault(*cfg, warm@) {
            Some(why) => r matches Err(e) && e@ == why,
            None => r is Ok,
        },
{
    if cfg.models.len() == 0 {
        return Err("至少需要一个模型配置".to_owned());
    }
    let mut i: usize = 0;
    while i < cfg.models.len()
        invariant
            i <= cfg.models@.len(),
            cfg.models@.len() > 0,
            warm@.len() == cfg.models@.len(),
            models_fault(*cfg, warm@, 0) == models_fault(*cfg, warm@, i as int),
        decreases cfg.models@.len() - i,
    {
        if text::trim(cfg.models[i].name.as_str()).is_empty() {
            return Err("模型名称不能为空".to_owned());
        }
        if is_name_taken(cfg, i) {
            let mut e = "模型名称重复: ".to_owned();
            e.append(cfg.models[i].name.as_str());
            return Err(e);
        }
        if !warm[i] {
            return Err("温度需在 0~2 之间".to_owned());
        }
        i += 1;
    }
    if cfg.find_model(cfg.active_model.as_str()).is_none() {
        return Err("当前激活模型不在模型列表中".to_owned());
    }
    if cfg.prompts.len() == 0 {
        return Err("至少需要一个人设".to_owned());
    }
    if cfg.find_prompt(cfg.active_prompt.as_str()).is_none() {
        return Err("当前激活人设不在列表中".to_owned());
    }
    Ok(())
}

// ---------- what is shown ----------

/// A request in words, and the type under which it is shown.
pub open spec fn request_words(r: napcat::RequestView) -> (Seq<char>, Seq<char>) {
    (
        "收到"@ + (if r.request_type == "friend"@ {
            "好友"@
        } else {
            "加群"@
        }) + "请求: "@ + number::dec(r.user_id as int) + " (留言: "@ + r.comment + ")"@,
        "request_"@ + r.request_type,
    )
}

pub fn request_notice(req: &RequestInfo) -> (r: (String, String))
    ensures
        (r.0@, r.1@) == request_words(req@),
{
    let mut s = "收到".to_owned();
    if text::same(req.request_type.as_str(), "friend") {
        s.append("好友");
    } else {
        s.append("加群");
    }
    s.append("请求: ");
    s.append(number::i64_text(req.user_id).as_str());
    s.append(" (留言: ");
    s.append(req.comment.as_str());
    s.append(")");
    let mut t = "request_".to_owned();
    t.append(req.request_type.as_str());
    (s, t)
}

/// What becomes of an event of the connection.
pub enum Dispatch {
    /// A message, to be dealt with on its own.
    Handle(ParsedMsg),
    /// Something to be shown.
    Show(FrontendEvent),
    /// A sign of life, for the watch over the connection.
    Watch { online: bool, good: bool, interval_ms: u64 },
}

/// Every event goes somewhere: messages are dealt with, notices and requests are shown,
/// and so is everything that is not known.
pub open spec fn is_dispatch(d: Dispatch, ev: napcat::BotEventView) -> bool {
    match ev {
        napcat::BotEventView::Message(m) => d matches Dispatch::Handle(x) && x@ == m,
        napcat::BotEventView::Notice(n) => match d {
            Dispatch::Show(FrontendEvent::Notice { desc, notice_type }) => desc@ == n.desc
                && notice_type@ == n.notice_type,
            _ => false,
        },
        napcat::BotEventView::Request(r) => match d {
            Dispatch::Show(FrontendEvent::Notice { desc, notice_type }) => (desc@, notice_type@)
                == request_words(r),
            _ => false,
        },
        napcat::BotEventView::Heartbeat { online, good, interval_ms } => d == (Dispatch::Watch {
            online,
            good,
            interval_ms,
        }),
        napcat::BotEventView::Lifecycle(l) => match d {
            Dispatch::Show(FrontendEvent::Log { level, msg }) => level@ == "info"@ && msg@
                == "连接事件: "@ + l,
            _ => false,
        },
    }
}

/// Sends an event of the connection on its way.
pub fn dispatch(ev: BotEvent) -> (r: Dispatch)
    ensures
        is_dispatch(r, ev@),
{
    match ev {
        BotEvent::Message(m) => Dispatch::Handle(m),
        BotEvent::Notice(n) => Dispatch::Show(
            FrontendEvent::Notice { desc: n.desc, notice_type: n.notice_type },
        ),
        BotEvent::Request(req) => {
            let (desc, notice_type) = request_notice(&req);
            Dispatch::Show(FrontendEvent::Notice { desc, notice_type })
        },
        BotEvent::Heartbeat { online, good, interval_ms } => Dispatch::Watch { online, good, interval_ms },
        BotEvent::Lifecycle(l) => {
            let mut msg = "连接事件: ".to_owned();
            msg.append(l.as_str());
            Dispatch::Show(FrontendEvent::Log { level: "info".to_owned(), msg })
        },
    }
}

/// The state of the connection in words.
pub open spec fn status_words(s: ConnStatus) -> Seq<char> {
    "连接状态: "@ + (if s.connected {
        "已连接"@
    } else {
        "未连接"@
    }) + (if s.last_error@.len() == 0 {
        Seq::<char>::empty()
    } else {
        " · "@ + s.last_error@
    })
}

pub fn status_log(s: &ConnStatus) -> (r: String)
    ensures
        r@ == status_words(*s),
{
    let mut t = "连接状态: ".to_owned();
    if s.connected {
        t.append("已连接");
    } else {
        t.append("未连接");
    }
    let ghost head = t@;
    if !s.last_error.as_str().is_empty() {
        t.append(" · ");
        t.append(s.last_error.as_str());
        assert(t@ =~= head + (" · "@ + s.last_error@));
    } else {
        assert(t@ =~= head + Seq::<char>::empty());
    }
    t
}

/// The state of the bot.
#[derive(Debug, Clone)]
pub struct StatusView {
    pub running: bool,
    pub connected: bool,
    pub mode: String,
    pub endpoint: String,
    pub self_id: Option<String>,
    pub last_error: String,
    pub paused: bool,
}

/// The account that is shown: the one set by hand, or else the one that logged in.
pub open spec fn shown_id(cfg: Config, last: Option<ConnStatus>) -> Option<Seq<char>> {
    let t = text::trim_of(cfg.napcat.self_id@);
    if t.len() > 0 {
        Some(t)
    } else {
        match last {
            Some(s) => match s.self_id {
                Some(i) => Some(number::dec(i as int)),
                None => None,
            },
            None => None,
        }
    }
}

/// The state of the bot, by the settings and the last known state of the connection.
pub fn status_view(cfg: &Config, last: &Option<ConnStatus>, running: bool, paused: bool) -> (r: StatusView)
    ensures
        r.running == running,
        r.paused == paused,
        r.mode@ == cfg.napcat.mode@,
        r.endpoint@ == napcat::endpoint_of(*cfg),
        r.connected == match *last {
            Some(s) => s.connected,
            None => false,
        },
        r.last_error@ == match *last {
            Some(s) => s.last_error@,
            None => ""@,
        },
        text::opt_view(r.self_id) == shown_id(*cfg, *last),
{
    let initial = napcat::initial_status(cfg);
    let t = text::trim(cfg.napcat.self_id.as_str());
    let self_id: Option<String> = if !t.is_empty() {
        Some(t.to_owned())
    } else {
        match last {
            Some(s) => match s.self_id {
                Some(i) => Some(number::i64_text(i)),
                None => None,
            },
            None => None,
        }
    };
    let (connected, last_error) = match last {
        Some(s) => (s.connected, s.last_error.clone()),
        None => (false, "".to_owned()),
    };
    StatusView {
        running,
        connected,
        mode: initial.mode,
        endpoint: initial.endpoint,
        self_id,
        last_error,
        paused,
    }
}

// ---------- the memory ----------

/// The key of a memory, by the name of its file.
pub open spec fn memory_key_of(name: Seq<char>) -> Option<Seq<char>> {
    if text::ends(name, ".jsonl"@) {
        Some(name.take(name.len() - ".jsonl"@.len()))
    } else {
        None
    }
}

pub fn memory_key(name: &str) -> (r: Option<&str>)
    ensures
        match r {
            Some(k) => memory_key_of(name@) == Some(k@),
            None => memory_key_of(name@) is None,
        },
{
    if text::ends_with(name, ".jsonl") {
        let n: usize = name.unicode_len();
        let m: usize = ".jsonl".unicode_len();
        let k = name.substring_char(0, n - m);
        assert(k@ == name@.take(n - m));
        Some(k)
    } else {
        None
    }
}

/// Adds an entry by hand.
pub fn add_memory(m: &mut MemoryStore, words: &str, cfg: &Config, now: i64) -> (r: Result<(), String>)
    ensures
        ({
            let t = text::trim_of(words@);
            let fresh = t.len() > 0 && !memory::remembers(old(m).items(), t);
            &&& fresh ==> r is Ok && final(m).items() == memory::with_entry(
                old(m).items(),
                MemoryEntryView { ts: now, source: "user"@, text: t },
                cfg.chat.memory.max_entries as int,
                cfg.chat.memory.max_entry_chars as int,
            )
            &&& !fresh ==> (r matches Err(e) && e@ == "记忆为空或已存在"@) && final(m).items() == old(
                m,
            ).items()
        }),
        final(m).file == old(m).file,
{
    if m.add_at(
        words,
        "user",
        cfg.chat.memory.max_entries as usize,
        cfg.chat.memory.max_entry_chars as usize,
        now,
    ) {
        Ok(())
    } else {
        Err("记忆为空或已存在".to_owned())
    }
}

/// Removes an entry by its number, counted from one.
pub fn delete_memory(m: &mut MemoryStore, index: usize) -> (r: Result<(), String>)
    ensures
        if 1 <= index <= old(m).items().len() {
            r is Ok && final(m).items() == old(m).items().remove(index - 1)
        } else {
            (r matches Err(e) && e@ == "序号无效"@) && final(m).items() == old(m).items()
        },
        final(m).file == old(m).file,
{
    if m.remove_index(index) {
        Ok(())
    } else {
        Err("序号无效".to_owned())
    }
}

// ---------- trials ----------

/// Whether a model can be tried.
pub fn check_llm_test(m: &config::ModelConfig) -> (r: Result<(), String>)
    ensures
        r is Ok <==> text::trim_of(m.api_key@).len() > 0,
        r matches Err(e) ==> e@ == "请先填写 API Key"@,
{
    if text::trim(m.api_key.as_str()).is_empty() {
        Err("请先填写 API Key".to_owned())
    } else {
        Ok(())
    }
}

/// What came of a trial of the connection.
pub enum Trial {
    /// The port could be listened on, or not, for this reason.
    Listen(u16, Option<String>),
    Connected,
    Refused(String),
    TimedOut,
}

pub open spec fn is_trial_result(r: Result<String, String>, t: Trial) -> bool {
    match t {
        Trial::Listen(port, None) => r matches Ok(s) && s@ == "✓ 反向 WS 端口 "@ + number::dec(port as int)
            + " 可正常监听(请确认 NapCat 已配置 ws-reverse 指向本机:"@ + number::dec(port as int) + ")"@,
        Trial::Listen(port, Some(why)) => r matches Err(s) && s@ == "✗ 端口 "@ + number::dec(port as int)
            + " 无法监听: "@ + why@,
        Trial::Connected => r matches Ok(s) && s@ == "✓ 连接成功,NapCat 在线"@,
        Trial::Refused(why) => r matches Err(s) && s@ == "✗ 连接失败: "@ + why@,
        Trial::TimedOut => r matches Err(s) && s@ == "✗ 连接超时(8s),请确认 NapCat 已启动且地址正确"@,
    }
}

pub fn trial_result(t: Trial) -> (r: Result<String, String>)
    ensures
        is_trial_result(r, t),
{
    match t {
        Trial::Listen(port, None) => {
            let mut s = "✓ 反向 WS 端口 ".to_owned();
            s.append(number::u64_text(port as u64).as_str());
            s.append(" 可正常监听(请确认 NapCat 已配置 ws-reverse 指向本机:");
            s.append(number::u64_text(port as u64).as_str());
            s.append(")");
            Ok(s)
        },
        Trial::Listen(port, Some(why)) => {
            let mut s = "✗ 端口 ".to_owned();
            s.append(number::u64_text(port as u64).as_str());
            s.append(" 无法监听: ");
            s.append(why.as_str());
            Err(s)
        },
        Trial::Connected => Ok("✓ 连接成功,NapCat 在线".to_owned()),
        Trial::Refused(why) => {
            let mut s = "✗ 连接失败: ".to_owned();
            s.append(why.as_str());
            Err(s)
        },
        Trial::TimedOut => Err("✗ 连接超时(8s),请确认 NapCat 已启动且地址正确".to_owned()),
    }
}

// ---------- laws ----------

/// Settings that pass are usable: there is a model and a persona, they are those that
/// were chosen, and no two models have one name.
pub proof fn law_valid_settings_are_usable(cfg: Config, warm: Seq<bool>)
    requires
        config_fault(cfg, warm) is None,
    ensures
        config::model_in_use(cfg) matches Some(m) && m.name@ == cfg.active_model@,
        config::prompt_in_use(cfg) matches Some(p) && p.id@ == cfg.active_prompt@,
        forall|i: int, j: int|
            0 <= j < i < cfg.models@.len() ==> (#[trigger] cfg.models@[j]).name@ != (
            #[trigger] cfg.models@[i]).name@,
{
    config::lemma_model_from(cfg.models@, cfg.active_model@, 0);
    config::lemma_prompt_from(cfg.prompts@, cfg.active_prompt@, 0);
    assert forall|i: int, j: int| 0 <= j < i < cfg.models@.len() implies (#[trigger] cfg.models@[j]).name@
        != (#[trigger] cfg.models@[i]).name@ by {
        lemma_no_fault(cfg, warm, 0, i);
        if cfg.models@[j].name@ == cfg.models@[i].name@ {
            assert(name_taken(cfg, i));
        }
    }
}

proof fn lemma_no_fault(cfg: Config, warm: Seq<bool>, from: int, i: int)
    requires
        0 <= from <= i < cfg.models@.len(),
        models_fault(cfg, warm, from) is None,
    ensures
        model_fault(cfg, warm, i) is None,
    decreases i - from,
{
    if from < i {
        lemma_no_fault(cfg, warm, from + 1, i);
    }
}

/// The defaults pass.
pub proof fn law_defaults_are_valid(cfg: Config, warm: Seq<bool>)
    requires
        config::default_config(cfg),
        warm.len() == 2 && warm[0] && warm[1],
    ensures
        config_fault(cfg, warm) is None,
{
    reveal_strlit("deepseek-v4-flash");
    reveal_strlit("deepseek-v4-pro");
    let flash = "deepseek-v4-flash"@;
    let pro = "deepseek-v4-pro"@;
    assert(flash.len() == 17 && pro.len() == 15);
    text::lemma_trim_fixed(flash);
    text::lemma_trim_fixed(pro);
    assert(!name_taken(cfg, 0));
    assert(!name_taken(cfg, 1));
    reveal_with_fuel(models_fault, 3);
}

/// Settings are turned down for what is wrong with them, and only then: no model, a model
/// without a name, two of one name, a temperature out of bounds, or a choice that is not
/// there.
pub proof fn law_settings_are_turned_down_for_a_fault(cfg: Config, warm: Seq<bool>, i: int)
    ensures
        cfg.models@.len() == 0 ==> config_fault(cfg, warm) == Some("至少需要一个模型配置"@),
        0 <= i < cfg.models@.len() && text::trim_of(cfg.models@[i].name@).len() == 0 ==> config_fault(cfg, warm) is Some,
        0 <= i < cfg.models@.len() && !warm[i] ==> config_fault(cfg, warm) is Some,
        cfg.prompts@.len() == 0 ==> config_fault(cfg, warm) is Some,
        (forall|k: int| 0 <= k < cfg.models@.len() ==> (#[trigger] cfg.models@[k]).name@ != cfg.active_model@)
            ==> config_fault(cfg, warm) is Some,
        (forall|k: int| 0 <= k < cfg.prompts@.len() ==> (#[trigger] cfg.prompts@[k]).id@ != cfg.active_prompt@)
            ==> config_fault(cfg, warm) is Some,
{
    if config_fault(cfg, warm) is None {
        law_valid_settings_are_usable(cfg, warm);
        if 0 <= i < cfg.models@.len() {
            lemma_no_fault(cfg, warm, 0, i);
        }
        config::law_choice_is_of_the_list(cfg);
    }
}

/// An event of the connection is dealt with as what it is: a message is handed on as it
/// came, a sign of life goes to the watch with what it says, and everything else is shown
/// in its own words.
pub proof fn law_events_go_where_they_belong(d: Dispatch, ev: napcat::BotEventView)
    requires
        is_dispatch(d, ev),
    ensures
        match ev {
            napcat::BotEventView::Message(m) => d matches Dispatch::Handle(x) && x@ == m,
            napcat::BotEventView::Heartbeat { online, good, interval_ms } => match d {
                Dispatch::Watch { online: o, good: g, interval_ms: n } => o == online && g == good && n == interval_ms,
                _ => false,
            },
            napcat::BotEventView::Notice(n) => match d {
                Dispatch::Show(FrontendEvent::Notice { desc, notice_type }) => desc@ == n.desc && notice_type@
                    == n.notice_type,
                _ => false,
            },
            napcat::BotEventView::Request(r) => match d {
                Dispatch::Show(FrontendEvent::Notice { desc, notice_type }) => text::includes(
                    desc@,
                    number::dec(r.user_id as int),
                ) && text::includes(desc@, r.comment) && text::ends(notice_type@, r.request_type),
                _ => false,
            },
            napcat::BotEventView::Lifecycle(l) => match d {
                Dispatch::Show(FrontendEvent::Log { level, msg }) => level@ == "info"@ && text::ends(msg@, l),
                _ => false,
            },
        },
{
    match ev {
        napcat::BotEventView::Request(r) => {
            let kind = if r.request_type == "friend"@ {
                "好友"@
            } else {
                "加群"@
            };
            let words = request_words(r).0;
            let a = "收到"@ + kind + "请求: "@;
            let u = number::dec(r.user_id as int);
            let b = " (留言: "@ + r.comment + ")"@;
            assert(words =~= a + u + b);
            text::law_occurrence(a, u, b);
            let c = a + u + " (留言: "@;
            assert(words =~= c + r.comment + ")"@);
            text::law_occurrence(c, r.comment, ")"@);
            text::law_occurrence("request_"@, r.request_type, Seq::<char>::empty());
        },
        napcat::BotEventView::Lifecycle(l) => {
            text::law_occurrence("连接事件: "@, l, Seq::<char>::empty());
        },
        _ => {},
    }
}

/// The state of the connection is told as it is, with the last fault where there was one.
pub proof fn law_state_is_told(s: ConnStatus)
    ensures
        s.connected ==> text::begins(status_words(s), "连接状态: 已连接"@),
        !s.connected ==> text::begins(status_words(s), "连接状态: 未连接"@),
        s.last_error@.len() > 0 ==> text::ends(status_words(s), " · "@ + s.last_error@),
{
    reveal_strlit("连接状态: ");
    reveal_strlit("已连接");
    reveal_strlit("未连接");
    reveal_strlit("连接状态: 已连接");
    reveal_strlit("连接状态: 未连接");
    let w = status_words(s);
    let n = "连接状态: 已连接"@.len() as int;
    if s.connected {
        assert(w.take(n) =~= "连接状态: 已连接"@);
    } else {
        assert(w.take(n) =~= "连接状态: 未连接"@);
    }
    if s.last_error@.len() > 0 {
        let tail = " · "@ + s.last_error@;
        assert(w.skip(w.len() - tail.len()) =~= tail);
    }
}

/// The account shown is the one set by hand, or else the one that logged in.
pub proof fn law_account_is_shown(cfg: Config, last: Option<ConnStatus>)
    ensures
        text::trim_of(cfg.napcat.self_id@).len() > 0 ==> shown_id(cfg, last) == Some(
            text::trim_of(cfg.napcat.self_id@),
        ),
        text::trim_of(cfg.napcat.self_id@).len() == 0 ==> match last {
            Some(s) => match s.self_id {
                Some(i) => shown_id(cfg, last) == Some(number::dec(i as int)),
                None => shown_id(cfg, last) is None,
            },
            None => shown_id(cfg, last) is None,
        },
        forall|key: Seq<char>| #[trigger] memory_key_of(key + ".jsonl"@) == Some(key),
        forall|name: Seq<char>| !text::ends(name, ".jsonl"@) ==> #[trigger] memory_key_of(name) is None,
{
    assert forall|key: Seq<char>| #[trigger] memory_key_of(key + ".jsonl"@) == Some(key) by {
        let name = key + ".jsonl"@;
        assert(name.skip(name.len() - ".jsonl"@.len()) =~= ".jsonl"@);
        assert(name.take(name.len() - ".jsonl"@.len()) =~= key);
    }
}

/// A trial is told as it went: what worked is told as a success and what did not as a
/// failure, with the port or the reason.
pub proof fn law_trial_is_told_as_it_went(r: Result<String, String>, t: Trial)
    requires
        is_trial_result(r, t),
    ensures
        match t {
            Trial::Listen(port, None) => r matches Ok(s) && text::includes(s@, number::dec(port as int)),
            Trial::Listen(port, Some(why)) => (r matches Err(s) && text::includes(s@, number::dec(port as int))
                && text::ends(s@, why@)),
            Trial::Connected => r is Ok,
            Trial::Refused(why) => r matches Err(s) && text::ends(s@, why@),
            Trial::TimedOut => r is Err,
        },
{
    match t {
        Trial::Listen(port, None) => {
            let p = number::dec(port as int);
            let a = "✓ 反向 WS 端口 "@;
            let b = " 可正常监听(请确认 NapCat 已配置 ws-reverse 指向本机:"@ + p + ")"@;
            assert(r->Ok_0@ =~= a + p + b);
            text::law_occurrence(a, p, b);
        },
        Trial::Listen(port, Some(why)) => {
            let p = number::dec(port as int);
            let a = "✗ 端口 "@;
            let b = " 无法监听: "@ + why@;
            assert(r->Err_0@ =~= a + p + b);
            text::law_occurrence(a, p, b);
            let s = r->Err_0@;
            assert(s.skip(s.len() - why@.len()) =~= why@);
        },
        Trial::Refused(why) => {
            let s = r->Err_0@;
            assert(s.skip(s.len() - why@.len()) =~= why@);
        },
        _ => {},
    }
}

} // verus!
