//! The settings of the bot and their defaults.
//!
//! Rates and temperatures, which are not whole numbers, are kept by the application
//! beside these.

use vstd::prelude::*;
use vstd::string::*;
use crate::text;

verus! {

#[derive(Clone, Debug)]
pub struct Config {
    /// The connection to NapCat.
    pub napcat: NapcatConfig,
    /// The models that can be used.
    pub models: Vec<ModelConfig>,
    /// The name of the model in use.
    pub active_model: String,
    /// How conversations are held.
    pub chat: ChatConfig,
    /// The personas that can be used.
    pub prompts: Vec<PromptPreset>,
    /// The id of the persona in use.
    pub active_prompt: String,
}

#[derive(Clone, Debug)]
pub struct NapcatConfig {
    /// `forward`: the bot connects to NapCat; `reverse`: NapCat connects to the bot.
    pub mode: String,
    /// Where to connect to.
    pub ws_url: String,
    /// Where to listen.
    pub reverse_port: u16,
    /// The access token of NapCat; empty where none is set.
    pub access_token: String,
    /// The account of the bot; empty to ask for it once connected.
    pub self_id: String,
    /// What triggers in a group: `at`, `keyword` or `at_or_keyword`.
    pub group_trigger: String,
    /// The trigger words, separated by commas.
    pub keyword: String,
    /// Whether quoting the bot triggers as well.
    pub reply_quoted: bool,
    /// Whether a hint is sent while a long thought lasts.
    pub reply_pending: bool,
    /// After how many seconds of thought the hint is sent.
    pub pending_delay_secs: u64,
    /// The hint.
    pub pending_text: String,
    /// The longest message, in characters; longer ones are cut.
    pub max_msg_len: usize,
    /// The pause between two segments of one reply.
    pub segment_delay_ms: u64,
}

#[derive(Clone, Debug)]
pub struct ModelConfig {
    /// The name shown and chosen by.
    pub name: String,
    /// The address of the service.
    pub base_url: String,
    pub api_key: String,
    /// The name that the service knows the model by.
    pub model: String,
    /// Kept for older settings; not used in requests.
    pub kind: String,
    /// `auto`, `enabled` or `disabled`; read by DeepSeek models only.
    pub thinking: String,
    /// `low`, `high` or `max`; read by DeepSeek models only.
    pub reasoning_effort: String,
    pub max_tokens: u32,
    pub timeout_secs: u64,
}

#[derive(Clone, Debug)]
pub struct ChatConfig {
    /// The budget of a conversation: system text, summary, history and question.
    pub context_tokens: u32,
    /// The part of the budget left for the reply.
    pub reserve_tokens: u32,
    /// Whether groups are answered.
    pub enable_group: bool,
    /// Whether private messages are answered.
    pub enable_private: bool,
    /// Whether old messages are folded into a summary beyond the budget.
    pub summarize: bool,
    /// The longest summary.
    pub summarize_tokens: u32,
    /// When an idle session leaves the memory, in hours; zero for never.
    pub clean_after_hours: u64,
    /// Whether the model is first asked if a reply is due.
    pub decider: bool,
    pub memory: MemoryConfig,
    pub interject: InterjectConfig,
}

/// Long-term memory.
#[derive(Clone, Debug)]
pub struct MemoryConfig {
    /// Whether the model may write to the memory.
    pub enabled: bool,
    /// The most entries.
    pub max_entries: u32,
    /// The longest entry, in characters.
    pub max_entry_chars: u32,
    /// The most tokens that the memory may take in all.
    pub max_tokens: u32,
}

/// Joining in uncalled, and answering to a name.
#[derive(Clone, Debug)]
pub struct InterjectConfig {
    /// Whether the bot joins in at all.
    pub enabled: bool,
    /// `adaptive`: by how busy the group is; `fixed`: always alike.
    pub mode: String,
    /// The least number of minutes between two interjections.
    pub cooldown_minutes: u64,
    /// The most tokens of an interjection.
    pub interject_max_tokens: u32,
    /// The span over which a group's pace is measured.
    pub activity_window_minutes: u64,
    /// Whether a message that names the bot is always answered.
    pub soft_at_reply: bool,
    /// The names of the bot, separated by commas.
    pub names: String,
    /// The words that invite an interjection, separated by commas.
    pub hooks: String,
}

#[derive(Clone, Debug)]
pub struct PromptPreset {
    pub id: String,
    pub name: String,
    pub prompt: String,
}

/// Where commands run on behalf of a task.
#[derive(Clone, Debug)]
pub struct SandboxConfig {
    /// The commands that may be run, separated by commas; empty for all.
    pub cmd_allowlist: String,
    /// How long a command may take.
    pub cmd_timeout_secs: u64,
    /// The image of the container; empty for the usual one.
    pub docker_image: String,
    /// The memory of the container; empty for the usual size.
    pub docker_memory: String,
    pub mem_limit_mb: u64,
    pub cpu_limit_secs: u64,
    /// Whether a sandbox goes with its task.
    pub destroy_on_done: bool,
}

/// Tasks handed to the helper.
#[derive(Clone, Debug)]
pub struct AgentConfig {
    pub enable_qq_ops: bool,
    pub enable_sandbox: bool,
    /// `docker` or else a plain directory.
    pub sandbox_backend: String,
    /// The accounts that are always trusted, separated by commas.
    pub owner_whitelist: String,
    /// The roles that may start a task in a group, separated by commas.
    pub allowed_group_roles: String,
    pub allow_private: bool,
    pub max_rounds: u32,
    pub select_max_tokens: u32,
    pub step_max_tokens: u32,
    pub approval_timeout_secs: u64,
    pub task_timeout_secs: u64,
}

/// What was said lately in a group without the bot being called.
#[derive(Clone, Debug)]
pub struct TrailConfig {
    pub enabled: bool,
    /// Which lines are shown: `window` for the recent ones, `all`, or none.
    pub inject_mode: String,
    pub window_minutes: u64,
    pub max_entries: u32,
    pub max_tokens: u32,
}

/// The defaults.
pub open spec fn default_napcat(c: NapcatConfig) -> bool {
    &&& c.mode@ == "forward"@
    &&& c.ws_url@ == "ws://127.0.0.1:3001"@
    &&& c.reverse_port == 3005
    &&& c.access_token@ == ""@
    &&& c.self_id@ == ""@
    &&& c.group_trigger@ == "at_or_keyword"@
    &&& c.keyword@ == ""@
    &&& c.reply_quoted
    &&& c.reply_pending
    &&& c.pending_delay_secs == 15
    &&& c.pending_text@ == "正在思考,请稍候…"@
    &&& c.max_msg_len == 1800
    &&& c.segment_delay_ms == 300
}

impl Default for NapcatConfig {
    fn default() -> (r: NapcatConfig)
        ensures
            default_napcat(r),
    {
        NapcatConfig {
            mode: "forward".to_owned(),
            ws_url: "ws://127.0.0.1:3001".to_owned(),
            reverse_port: 3005,
            access_token: "".to_owned(),
            self_id: "".to_owned(),
            group_trigger: "at_or_keyword".to_owned(),
            keyword: "".to_owned(),
            reply_quoted: true,
            reply_pending: true,
            pending_delay_secs: 15,
            pending_text: "正在思考,请稍候…".to_owned(),
            max_msg_len: 1800,
            segment_delay_ms: 300,
        }
    }
}

/// A model of the DeepSeek family, as preset.
pub open spec fn deepseek_model(c: ModelConfig, name: Seq<char>, timeout_secs: u64) -> bool {
    &&& c.name@ == name
    &&& c.base_url@ == "https://api.deepseek.com"@
    &&& c.api_key@ == ""@
    &&& c.model@ == name
    &&& c.kind@ == "chat"@
    &&& c.thinking@ == "auto"@
    &&& c.reasoning_effort@ == "high"@
    &&& c.max_tokens == 8192
    &&& c.timeout_secs == timeout_secs
}

impl ModelConfig {
    pub fn deepseek_v4_flash() -> (r: ModelConfig)
        ensures
            deepseek_model(r, "deepseek-v4-flash"@, 120),
    {
        ModelConfig {
            name: "deepseek-v4-flash".to_owned(),
            base_url: "https://api.deepseek.com".to_owned(),
            api_key: "".to_owned(),
            model: "deepseek-v4-flash".to_owned(),
            kind: "chat".to_owned(),
            thinking: "auto".to_owned(),
            reasoning_effort: "high".to_owned(),
            max_tokens: 8192,
            timeout_secs: 120,
        }
    }

    pub fn deepseek_v4_pro() -> (r: ModelConfig)
        ensures
            deepseek_model(r, "deepseek-v4-pro"@, 180),
    {
        ModelConfig {
            name: "deepseek-v4-pro".to_owned(),
            base_url: "https://api.deepseek.com".to_owned(),
            api_key: "".to_owned(),
            model: "deepseek-v4-pro".to_owned(),
            kind: "chat".to_owned(),
            thinking: "auto".to_owned(),
            reasoning_effort: "high".to_owned(),
            max_tokens: 8192,
            timeout_secs: 180,
        }
    }
}

impl Default for ModelConfig {
    fn default() -> (r: ModelConfig)
        ensures
            deepseek_model(r, "deepseek-v4-flash"@, 120),
    {
        ModelConfig::deepseek_v4_flash()
    }
}

/// The defaults.
pub open spec fn default_chat(c: ChatConfig) -> bool {
    &&& c.context_tokens == 8192
    &&& c.reserve_tokens == 1024
    &&& c.enable_group
    &&& c.enable_private
    &&& c.summarize
    &&& c.summarize_tokens == 600
    &&& c.clean_after_hours == 24
    &&& !c.decider
    &&& default_memory(c.memory)
    &&& default_interject(c.interject)
}

impl Default for ChatConfig {
    fn default() -> (r: ChatConfig)
        ensures
            default_chat(r),
    {
        ChatConfig {
            context_tokens: 8192,
            reserve_tokens: 1024,
            enable_group: true,
            enable_private: true,
            summarize: true,
            summarize_tokens: 600,
            clean_after_hours: 24,
            decider: false,
            memory: MemoryConfig::default(),
            interject: InterjectConfig::default(),
        }
    }
}

/// The defaults.
pub open spec fn default_memory(c: MemoryConfig) -> bool {
    &&& c.enabled
    &&& c.max_entries == 30
    &&& c.max_entry_chars == 200
    &&& c.max_tokens == 1200
}

impl Default for MemoryConfig {
    fn default() -> (r: MemoryConfig)
        ensures
            default_memory(r),
    {
        MemoryConfig {
            enabled: true,
            max_entries: 30,
            max_entry_chars: 200,
            max_tokens: 1200,
        }
    }
}

/// The defaults.
pub open spec fn default_interject(c: InterjectConfig) -> bool {
    &&& c.enabled
    &&& c.mode@ == "adaptive"@
    &&& c.cooldown_minutes == 15
    &&& c.interject_max_tokens == 120
    &&& c.activity_window_minutes == 2
    &&& c.soft_at_reply
    &&& c.names@ == "小灯"@
    &&& c.hooks@ == "怎么,为什么,帮,大家觉得,你们说"@
}

impl Default for InterjectConfig {
    fn default() -> (r: InterjectConfig)
        ensures
            default_interject(r),
    {
        InterjectConfig {
            enabled: true,
            mode: "adaptive".to_owned(),
            cooldown_minutes: 15,
            interject_max_tokens: 120,
            activity_window_minutes: 2,
            soft_at_reply: true,
            names: "小灯".to_owned(),
            hooks: "怎么,为什么,帮,大家觉得,你们说".to_owned(),
        }
    }
}

/// The defaults.
pub open spec fn default_prompt(c: PromptPreset) -> bool {
    &&& c.id@ == "default"@
    &&& c.name@ == "默认助手"@
    &&& c.prompt@ == "你是一个乐于助人的 AI 助手,通过 QQ 与用户对话。\n回复要求:\n- 简洁、自然、口语化,不要长篇大论;\n- 除非被明确要求,不要输出 Markdown 表格、代码块等格式;\n- 不确定的事情要如实说明。"@
}

impl Default for PromptPreset {
    fn default() -> (r: PromptPreset)
        ensures
            default_prompt(r),
    {
        PromptPreset {
            id: "default".to_owned(),
            name: "默认助手".to_owned(),
            prompt: "你是一个乐于助人的 AI 助手,通过 QQ 与用户对话。\n回复要求:\n- 简洁、自然、口语化,不要长篇大论;\n- 除非被明确要求,不要输出 Markdown 表格、代码块等格式;\n- 不确定的事情要如实说明。".to_owned(),
        }
    }
}

/// The defaults of all settings.
pub open spec fn default_config(c: Config) -> bool {
    &&& default_napcat(c.napcat)
    &&& c.models@.len() == 2
    &&& deepseek_model(c.models@[0], "deepseek-v4-flash"@, 120)
    &&& deepseek_model(c.models@[1], "deepseek-v4-pro"@, 180)
    &&& c.active_model@ == "deepseek-v4-flash"@
    &&& default_chat(c.chat)
    &&& c.prompts@.len() == 1
    &&& default_prompt(c.prompts@[0])
    &&& c.active_prompt@ == "default"@
}

impl Default for Config {
    fn default() -> (r: Config)
        ensures
            default_config(r),
    {
        Config {
            napcat: NapcatConfig::default(),
            models: vec![ModelConfig::deepseek_v4_flash(), ModelConfig::deepseek_v4_pro()],
            active_model: "deepseek-v4-flash".to_owned(),
            chat: ChatConfig::default(),
            prompts: vec![PromptPreset::default()],
            active_prompt: "default".to_owned(),
        }
    }
}

/// The first model with the given name, from position `i` on.
pub open spec fn model_from(models: Seq<ModelConfig>, name: Seq<char>, i: int) -> Option<ModelConfig>
    decreases models.len() - i,
{
    if i < 0 || i >= models.len() {
        None
    } else if models[i].name@ == name {
        Some(models[i])
    } else {
        model_from(models, name, i + 1)
    }
}

/// The model in use: the one with the active name, or else the first.
pub open spec fn model_in_use(c: Config) -> Option<ModelConfig> {
    match model_from(c.models@, c.active_model@, 0) {
        Some(m) => Some(m),
        None => if c.models@.len() > 0 {
            Some(c.models@[0])
        } else {
            None
        },
    }
}

/// The first persona with the given id, from position `i` on.
pub open spec fn prompt_from(prompts: Seq<PromptPreset>, id: Seq<char>, i: int) -> Option<PromptPreset>
    decreases prompts.len() - i,
{
    if i < 0 || i >= prompts.len() {
        None
    } else if prompts[i].id@ == id {
        Some(prompts[i])
    } else {
        prompt_from(prompts, id, i + 1)
    }
}

/// The persona in use: the one with the active id, or else the first.
pub open spec fn prompt_in_use(c: Config) -> Option<PromptPreset> {
    match prompt_from(c.prompts@, c.active_prompt@, 0) {
        Some(p) => Some(p),
        None => if c.prompts@.len() > 0 {
            Some(c.prompts@[0])
        } else {
            None
        },
    }
}

impl Config {
    /// The first model with the given name.
    pub fn find_model(&self, name: &str) -> (r: Option<&ModelConfig>)
        ensures
            match r {
                Some(m) => model_from(self.models@, name@, 0) == Some(*m),
                None => model_from(self.models@, name@, 0) is None,
            },
    {
        let mut i: usize = 0;
        while i < self.models.len()
            invariant
                i <= self.models@.len(),
                model_from(self.models@, name@, 0) == model_from(self.models@, name@, i as int),
            decreases self.models@.len() - i,
        {
            if text::same(self.models[i].name.as_str(), name) {
                return Some(&self.models[i]);
            }
            i += 1;
        }
        None
    }

    /// The model in use.
    pub fn active_model(&self) -> (r: Option<&ModelConfig>)
        ensures
            match r {
                Some(m) => model_in_use(*self) == Some(*m),
                None => model_in_use(*self) is None,
            },
    {
        match self.find_model(self.active_model.as_str()) {
            Some(m) => Some(m),
            None => if self.models.len() > 0 {
                Some(&self.models[0])
            } else {
                None
            },
        }
    }

    /// The first persona with the given id.
    pub fn find_prompt(&self, id: &str) -> (r: Option<&PromptPreset>)
        ensures
            match r {
                Some(p) => prompt_from(self.prompts@, id@, 0) == Some(*p),
                None => prompt_from(self.prompts@, id@, 0) is None,
            },
    {
        let mut i: usize = 0;
        while i < self.prompts.len()
            invariant
                i <= self.prompts@.len(),
                prompt_from(self.prompts@, id@, 0) == prompt_from(self.prompts@, id@, i as int),
            decreases self.prompts@.len() - i,
        {
            if text::same(self.prompts[i].id.as_str(), id) {
                return Some(&self.prompts[i]);
            }
            i += 1;
        }
        None
    }

    /// The persona in use.
    pub fn prompt(&self) -> (r: Option<&PromptPreset>)
        ensures
            match r {
                Some(p) => prompt_in_use(*self) == Some(*p),
                None => prompt_in_use(*self) is None,
            },
    {
        match self.find_prompt(self.active_prompt.as_str()) {
            Some(p) => Some(p),
            None => if self.prompts.len() > 0 {
                Some(&self.prompts[0])
            } else {
                None
            },
        }
    }
}

/// A model that is found has the name.
pub proof fn lemma_model_from(models: Seq<ModelConfig>, name: Seq<char>, i: int)
    ensures
        model_from(models, name, i) matches Some(m) ==> m.name@ == name,
    decreases models.len() - i,
{
    if 0 <= i < models.len() {
        lemma_model_from(models, name, i + 1);
    }
}

/// A persona that is found has the id.
pub proof fn lemma_prompt_from(prompts: Seq<PromptPreset>, id: Seq<char>, i: int)
    ensures
        prompt_from(prompts, id, i) matches Some(p) ==> p.id@ == id,
    decreases prompts.len() - i,
{
    if 0 <= i < prompts.len() {
        lemma_prompt_from(prompts, id, i + 1);
    }
}

/// What is found by its name is the first of that name, and something is found exactly
/// where there is one.
pub proof fn law_first_of_its_name_is_found(models: Seq<ModelConfig>, name: Seq<char>, from: int)
    requires
        0 <= from <= models.len(),
    ensures
        match model_from(models, name, from) {
            Some(m) => exists|i: int|
                #![trigger models[i]]
                from <= i < models.len() && models[i] == m && m.name@ == name && (forall|k: int|
                    from <= k < i ==> (#[trigger] models[k]).name@ != name),
            None => forall|k: int| from <= k < models.len() ==> (#[trigger] models[k]).name@ != name,
        },
    decreases models.len() - from,
{
    if from < models.len() && models[from].name@ != name {
        law_first_of_its_name_is_found(models, name, from + 1);
    }
}

/// The same of personas, which go by their ids.
pub proof fn law_first_of_its_id_is_found(prompts: Seq<PromptPreset>, id: Seq<char>, from: int)
    requires
        0 <= from <= prompts.len(),
    ensures
        match prompt_from(prompts, id, from) {
            Some(p) => exists|i: int|
                #![trigger prompts[i]]
                from <= i < prompts.len() && prompts[i] == p && p.id@ == id && (forall|k: int|
                    from <= k < i ==> (#[trigger] prompts[k]).id@ != id),
            None => forall|k: int| from <= k < prompts.len() ==> (#[trigger] prompts[k]).id@ != id,
        },
    decreases prompts.len() - from,
{
    if from < prompts.len() && prompts[from].id@ != id {
        law_first_of_its_id_is_found(prompts, id, from + 1);
    }
}

/// What is in use is of the list, whatever was chosen: the one that was chosen where it is
/// there, else the first, and nothing only where the list is empty.
pub proof fn law_choice_is_of_the_list(c: Config)
    ensures
        model_in_use(c) is None <==> c.models@.len() == 0,
        prompt_in_use(c) is None <==> c.prompts@.len() == 0,
        model_in_use(c) matches Some(m) ==> c.models@.contains(m) && (m.name@ == c.active_model@ || (m == c.models@[0]
            && forall|k: int| 0 <= k < c.models@.len() ==> (#[trigger] c.models@[k]).name@ != c.active_model@)),
        prompt_in_use(c) matches Some(p) ==> c.prompts@.contains(p) && (p.id@ == c.active_prompt@ || (p == c.prompts@[0]
            && forall|k: int| 0 <= k < c.prompts@.len() ==> (#[trigger] c.prompts@[k]).id@ != c.active_prompt@)),
{
    law_first_of_its_name_is_found(c.models@, c.active_model@, 0);
    law_first_of_its_id_is_found(c.prompts@, c.active_prompt@, 0);
}

/// The defaults hold together: what is chosen is there, the reply and the summary fit into
/// the context, and the memory fits its own bounds.
pub proof fn law_defaults_hold_together(c: Config)
    requires
        default_config(c),
    ensures
        model_in_use(c) == Some(c.models@[0]),
        prompt_in_use(c) == Some(c.prompts@[0]),
        c.models@[0].name@ == c.models@[0].model@ && c.models@[1].name@ == c.models@[1].model@,
        c.models@[0].name@ != c.models@[1].name@,
        0 < c.chat.reserve_tokens + c.chat.summarize_tokens < c.chat.context_tokens,
        c.chat.enable_group && c.chat.enable_private,
        0 < c.chat.memory.max_entry_chars,
        0 < c.chat.memory.max_entries,
        0 < c.napcat.max_msg_len,
        c.napcat.max_msg_len == 1800 && c.napcat.segment_delay_ms == 300 && c.napcat.pending_delay_secs == 15,
        c.napcat.reverse_port == 3005 && c.napcat.access_token@.len() == 0 && c.napcat.self_id@.len() == 0,
        c.chat.context_tokens == 8192 && c.chat.reserve_tokens == 1024 && c.chat.summarize_tokens == 600,
        c.chat.clean_after_hours == 24 && c.chat.summarize && !c.chat.decider,
        c.chat.memory.enabled && c.chat.memory.max_entries == 30 && c.chat.memory.max_entry_chars == 200
            && c.chat.memory.max_tokens == 1200,
        c.chat.interject.enabled && c.chat.interject.cooldown_minutes == 15 && c.chat.interject.interject_max_tokens
            == 120 && c.chat.interject.activity_window_minutes == 2 && c.chat.interject.soft_at_reply,
        forall|i: int|
            0 <= i < 2 ==> (#[trigger] c.models@[i]).max_tokens == 8192 && c.models@[i].api_key@.len() == 0,
        c.models@[0].timeout_secs == 120 && c.models@[1].timeout_secs == 180,
{
    reveal_strlit("");
    reveal_strlit("deepseek-v4-flash");
    reveal_strlit("deepseek-v4-pro");
    assert("deepseek-v4-flash"@.len() == 17 && "deepseek-v4-pro"@.len() == 15);
}

} // verus!
