//! Requests to a chat model and its replies.
//!
//! The shape of a request, the reading of a reply and the stream of a long reply are
//! decided here; sending and receiving is left to the application, which also adds the
//! temperature where it is wanted.

use vstd::prelude::*;
use vstd::string::*;
use crate::config::ModelConfig;
use crate::json;
use crate::json::{parse_json, read_json, Json, JsonView};
use crate::number;
use crate::text;

verus! {

/// Why a reply was cut short by the user.
pub fn user_stopped() -> (r: &'static str)
    ensures
        r@ == "用户已停止本次回复"@,
{
    "用户已停止本次回复"
}

#[derive(Debug)]
pub struct ApiMessage {
    pub role: String,
    pub content: String,
}

pub struct ApiMessageView {
    pub role: Seq<char>,
    pub content: Seq<char>,
}

impl View for ApiMessage {
    type V = ApiMessageView;

    open spec fn view(&self) -> ApiMessageView {
        ApiMessageView { role: self.role@, content: self.content@ }
    }
}

impl Clone for ApiMessage {
    fn clone(&self) -> (r: ApiMessage)
        ensures
            r@ == self@,
    {
        ApiMessage { role: self.role.clone(), content: self.content.clone() }
    }
}

pub open spec fn msgs_view(v: Seq<ApiMessage>) -> Seq<ApiMessageView> {
    v.map_values(|m: ApiMessage| m@)
}

pub open spec fn msg_of(role: Seq<char>, content: Seq<char>) -> ApiMessageView {
    ApiMessageView { role, content }
}

pub fn message(role: &str, content: String) -> (r: ApiMessage)
    ensures
        r@ == msg_of(role@, content@),
        r.role@ == role@,
        r.content@ == content@,
{
    ApiMessage { role: role.to_owned(), content }
}

/// A copy of a list of messages.
pub fn copy_messages(v: &Vec<ApiMessage>) -> (r: Vec<ApiMessage>)
    ensures
        msgs_view(r@) == msgs_view(v@),
        r@.len() == v@.len(),
        forall|i: int|
            0 <= i < v@.len() ==> (#[trigger] r@[i]).role@ == v@[i].role@ && r@[i].content@
                == v@[i].content@,
{
    let mut r: Vec<ApiMessage> = Vec::new();
    let mut i: usize = 0;
    while i < v.len()
        invariant
            i <= v@.len(),
            r@.len() == i,
            forall|k: int| 0 <= k < i ==> (#[trigger] r@[k])@ == v@[k]@,
        decreases v@.len() - i,
    {
        r.push(v[i].clone());
        i += 1;
    }
    assert(msgs_view(r@) =~= msgs_view(v@));
    r
}

/// What a request cost, in tokens.
#[derive(Debug, Clone, Copy)]
pub struct Usage {
    pub prompt_tokens: u64,
    pub completion_tokens: u64,
    /// The part of the prompt found in the prefix cache.
    pub cache_hit: u64,
    /// The part of the prompt not found there.
    pub cache_miss: u64,
    /// The tokens spent on thinking.
    pub reasoning_tokens: u64,
}

impl Default for Usage {
    fn default() -> (r: Usage)
        ensures
            r == no_usage(),
    {
        Usage {
            prompt_tokens: 0,
            completion_tokens: 0,
            cache_hit: 0,
            cache_miss: 0,
            reasoning_tokens: 0,
        }
    }
}

pub open spec fn no_usage() -> Usage {
    Usage {
        prompt_tokens: 0,
        completion_tokens: 0,
        cache_hit: 0,
        cache_miss: 0,
        reasoning_tokens: 0,
    }
}

#[derive(Debug, Clone)]
pub struct LlmReply {
    pub text: String,
    /// What the model thought before it answered.
    pub reasoning: String,
    pub usage: Usage,
}

pub struct LlmReplyView {
    pub text: Seq<char>,
    pub reasoning: Seq<char>,
    pub usage: Usage,
}

impl View for LlmReply {
    type V = LlmReplyView;

    open spec fn view(&self) -> LlmReplyView {
        LlmReplyView { text: self.text@, reasoning: self.reasoning@, usage: self.usage }
    }
}

// ---------- requests ----------

/// The body of a request, but for the temperature itself.
pub struct RequestBody {
    pub model: String,
    pub messages: Vec<ApiMessage>,
    pub stream: bool,
    /// Thinking switched on or off; not mentioned where there is none.
    pub thinking: Option<bool>,
    pub reasoning_effort: Option<String>,
    /// The temperature of the model is to be given.
    pub with_temperature: bool,
    pub max_tokens: Option<u32>,
    /// A stream is to end with its cost.
    pub include_usage: bool,
}

pub struct RequestBodyView {
    pub model: Seq<char>,
    pub messages: Seq<ApiMessageView>,
    pub stream: bool,
    pub thinking: Option<bool>,
    pub reasoning_effort: Option<Seq<char>>,
    pub with_temperature: bool,
    pub max_tokens: Option<u32>,
    pub include_usage: bool,
}

impl View for RequestBody {
    type V = RequestBodyView;

    open spec fn view(&self) -> RequestBodyView {
        RequestBodyView {
            model: self.model@,
            messages: msgs_view(self.messages@),
            stream: self.stream,
            thinking: self.thinking,
            reasoning_effort: text::opt_view(self.reasoning_effort),
            with_temperature: self.with_temperature,
            max_tokens: self.max_tokens,
            include_usage: self.include_usage,
        }
    }
}

/// The switches of a request, as far as they depend on the family of the model:
/// `deepseek` says whether it is the one that knows about thinking. A model that thinks
/// takes no temperature.
pub open spec fn body_of(
    m: ModelConfig,
    deepseek: bool,
    messages: Seq<ApiMessageView>,
    max_tokens: Option<u32>,
    stream: bool,
) -> RequestBodyView {
    let off = m.thinking@ == "disabled"@;
    let thinks = deepseek && !off;
    RequestBodyView {
        model: m.model@,
        messages,
        stream,
        thinking: if deepseek {
            Some(!off)
        } else {
            None
        },
        reasoning_effort: if thinks && m.reasoning_effort@.len() > 0 {
            Some(m.reasoning_effort@)
        } else {
            None
        },
        with_temperature: !thinks,
        max_tokens: match max_tokens {
            Some(t) => Some(
                if t < m.max_tokens {
                    t
                } else {
                    m.max_tokens
                },
            ),
            None => None,
        },
        include_usage: stream,
    }
}

/// The family of a model, by its name.
pub open spec fn is_deepseek_of(model: Seq<char>) -> bool {
    text::includes(text::lowercase(model), "deepseek"@)
}

/// The body of a request to a model.
pub fn build_body(
    m: &ModelConfig,
    messages: &Vec<ApiMessage>,
    max_tokens: Option<u32>,
    stream: bool,
) -> (r: RequestBody)
    ensures
        r@ == body_of(*m, is_deepseek_of(m.model@), msgs_view(messages@), max_tokens, stream),
        r.model@ == m.model@,
        r.stream == stream,
        r.messages@.len() == messages@.len(),
        forall|i: int|
            0 <= i < messages@.len() ==> (#[trigger] r.messages@[i]).role@ == messages@[i].role@
                && r.messages@[i].content@ == messages@[i].content@,
{
    let deepseek = text::contains(text::to_lowercase(m.model.as_str()).as_str(), "deepseek");
    shape_body(m, deepseek, messages, max_tokens, stream)
}

/// The body of a request to a model of a known family.
pub fn shape_body(
    m: &ModelConfig,
    deepseek: bool,
    messages: &Vec<ApiMessage>,
    max_tokens: Option<u32>,
    stream: bool,
) -> (r: RequestBody)
    ensures
        r@ == body_of(*m, deepseek, msgs_view(messages@), max_tokens, stream),
        r.model@ == m.model@,
        r.stream == stream,
        r.messages@.len() == messages@.len(),
        forall|i: int|
            0 <= i < messages@.len() ==> (#[trigger] r.messages@[i]).role@ == messages@[i].role@
                && r.messages@[i].content@ == messages@[i].content@,
{
    let off = text::same(m.thinking.as_str(), "disabled");
    let thinks = deepseek && !off;
    let capped: Option<u32> = match max_tokens {
        Some(t) => Some(
            if t < m.max_tokens {
                t
            } else {
                m.max_tokens
            },
        ),
        None => None,
    };
    RequestBody {
        model: m.model.clone(),
        messages: copy_messages(messages),
        stream,
        thinking: if deepseek {
            Some(!off)
        } else {
            None
        },
        reasoning_effort: if thinks && !m.reasoning_effort.as_str().is_empty() {
            Some(m.reasoning_effort.clone())
        } else {
            None
        },
        with_temperature: !thinks,
        max_tokens: capped,
        include_usage: stream,
    }
}

/// A model as it is asked without thinking.
pub open spec fn without_thinking_of(m: ModelConfig, r: ModelConfig) -> bool {
    &&& r.thinking@ == "disabled"@
    &&& same_model_but_thinking(m, r)
}

pub open spec fn same_model_but_thinking(m: ModelConfig, r: ModelConfig) -> bool {
    &&& r.name@ == m.name@
    &&& r.base_url@ == m.base_url@
    &&& r.api_key@ == m.api_key@
    &&& r.model@ == m.model@
    &&& r.kind@ == m.kind@
    &&& r.reasoning_effort@ == m.reasoning_effort@
    &&& r.max_tokens == m.max_tokens
    &&& r.timeout_secs == m.timeout_secs
}

pub fn without_thinking(m: &ModelConfig) -> (r: ModelConfig)
    ensures
        without_thinking_of(*m, r),
{
    ModelConfig {
        name: m.name.clone(),
        base_url: m.base_url.clone(),
        api_key: m.api_key.clone(),
        model: m.model.clone(),
        kind: m.kind.clone(),
        thinking: "disabled".to_owned(),
        reasoning_effort: m.reasoning_effort.clone(),
        max_tokens: m.max_tokens,
        timeout_secs: m.timeout_secs,
    }
}

pub open spec fn url_of(m: ModelConfig, path: Seq<char>) -> Seq<char> {
    text::trim_end_matches_of(m.base_url@, "/"@) + path
}

/// The address of the chat completions.
pub fn completions_url(m: &ModelConfig) -> (r: String)
    ensures
        r@ == url_of(*m, "/chat/completions"@),
{
    let mut s = text::trim_end_matches(m.base_url.as_str(), "/").to_owned();
    s.append("/chat/completions");
    s
}

/// The address of the balance of the account.
pub fn balance_url(m: &ModelConfig) -> (r: String)
    ensures
        r@ == url_of(*m, "/user/balance"@),
{
    let mut s = text::trim_end_matches(m.base_url.as_str(), "/").to_owned();
    s.append("/user/balance");
    s
}

/// How long a request may take, in seconds.
pub fn request_timeout(m: &ModelConfig) -> (r: u64)
    ensures
        r == if m.timeout_secs < 10 {
            10
        } else {
            m.timeout_secs
        },
        r >= 10 && r >= m.timeout_secs && (r == 10 || r == m.timeout_secs),
{
    if m.timeout_secs < 10 {
        10
    } else {
        m.timeout_secs
    }
}

// ---------- replies ----------

/// The cost reported in the member `usage`.
pub open spec fn usage_of(u: JsonView) -> Usage {
    Usage {
        prompt_tokens: count_of(json::field(u, "prompt_tokens"@)),
        completion_tokens: count_of(json::field(u, "completion_tokens"@)),
        cache_hit: count_of(json::field(u, "prompt_cache_hit_tokens"@)),
        cache_miss: count_of(json::field(u, "prompt_cache_miss_tokens"@)),
        reasoning_tokens: count_of(
            json::field(json::field(u, "completion_tokens_details"@), "reasoning_tokens"@),
        ),
    }
}

/// A number of tokens; zero where none is given.
pub open spec fn count_of(v: JsonView) -> u64 {
    match json::u64_of(v) {
        Some(n) => n,
        None => 0,
    }
}

fn count(v: &Json, key: &str) -> (r: u64)
    ensures
        r == count_of(json::field(v@, key@)),
{
    match v.u64_field(key) {
        Some(n) => n,
        None => 0,
    }
}

fn read_usage(u: &Json) -> (r: Usage)
    ensures
        r == usage_of(u@),
{
    let reasoning_tokens: u64 = match u.get("completion_tokens_details") {
        Some(d) => count(d, "reasoning_tokens"),
        None => 0,
    };
    Usage {
        prompt_tokens: count(u, "prompt_tokens"),
        completion_tokens: count(u, "completion_tokens"),
        cache_hit: count(u, "prompt_cache_hit_tokens"),
        cache_miss: count(u, "prompt_cache_miss_tokens"),
        reasoning_tokens,
    }
}

/// The first of the choices.
pub open spec fn choice_of(v: JsonView) -> JsonView {
    json::element(json::field(v, "choices"@), 0)
}

/// The reply in a document; none where it holds neither text nor thought.
pub open spec fn reply_of(v: JsonView) -> Option<LlmReplyView> {
    let msg = json::field(choice_of(v), "message"@);
    let text = text::trim_of(json::str_field_or(msg, "content"@, ""@));
    let reasoning = text::trim_of(json::str_field_or(msg, "reasoning_content"@, ""@));
    if text.len() == 0 && reasoning.len() == 0 {
        None
    } else {
        Some(LlmReplyView { text, reasoning, usage: usage_of(json::field(v, "usage"@)) })
    }
}

/// Why an empty reply is none.
pub open spec fn empty_reply_error(raw: Seq<char>) -> Seq<char> {
    "模型返回空内容: "@ + text::truncate_of(raw, 300)
}

/// The reply in a document whose text is `raw`.
pub fn parse_reply(v: &Json, raw: &str) -> (r: Result<LlmReply, String>)
    ensures
        match r {
            Ok(reply) => reply_of(v@) == Some(reply@),
            Err(e) => reply_of(v@) is None && e@ == empty_reply_error(raw@),
        },
{
    let choice = match v.get("choices") {
        Some(c) => match c.at(0) {
            Some(x) => x.clone(),
            None => Json::null(),
        },
        None => Json::null(),
    };
    let msg = choice.field("message");
    let text = text::trim(msg.str_field_or("content", "")).to_owned();
    let reasoning = text::trim(msg.str_field_or("reasoning_content", "")).to_owned();
    if text.as_str().is_empty() && reasoning.as_str().is_empty() {
        let mut e = "模型返回空内容: ".to_owned();
        e.append(text::truncate(raw, 300).as_str());
        return Err(e);
    }
    let usage = read_usage(&v.field("usage"));
    Ok(LlmReply { text, reasoning, usage })
}

/// A reply that came in pieces as a result: without a text, as when the thinking has
/// used up the budget, it is that of an empty reply.
pub fn check_streamed(reply: LlmReply) -> (r: Result<LlmReply, String>)
    ensures
        match r {
            Ok(x) => x == reply && reply.text@.len() > 0,
            Err(e) => reply.text@.len() == 0 && e@ == "模型返回空内容"@,
        },
{
    if reply.text.as_str().is_empty() {
        Err("模型返回空内容".to_owned())
    } else {
        Ok(reply)
    }
}

/// Whether a failure is that of an empty reply.
pub fn is_empty_reply_err(e: &str) -> (r: bool)
    ensures
        r == text::begins(e@, "模型返回空内容"@),
{
    text::starts_with(e, "模型返回空内容")
}

/// Why a response of the given status is a failure.
pub open spec fn http_error_of(status: Seq<char>, body: Seq<char>, cap: int) -> Seq<char> {
    "HTTP "@ + status + ": "@ + text::truncate_of(body, cap)
}

pub fn http_error(status: &str, body: &str, cap: usize) -> (r: String)
    ensures
        r@ == http_error_of(status@, body@, cap as int),
{
    let mut s = "HTTP ".to_owned();
    s.append(status);
    s.append(": ");
    s.append(text::truncate(body, cap).as_str());
    s
}

/// What a response amounts to.
pub open spec fn is_chat_result(
    r: Result<LlmReply, String>,
    success: bool,
    status: Seq<char>,
    body: Seq<char>,
) -> bool {
    if !success {
        r matches Err(e) && e@ == http_error_of(status, body, 300)
    } else {
        match json::json_parse(body) {
            None => r matches Err(e) && e@ == "响应解析失败: "@ + json::json_error(body) + "\n"@
                + text::truncate_of(body, 300),
            Some(v) => match reply_of(v) {
                Some(reply) => r matches Ok(x) && x@ == reply,
                None => r matches Err(e) && e@ == empty_reply_error(body),
            },
        }
    }
}

/// Reads a response: its status, whether that is a success, and its body.
pub fn read_response(success: bool, status: &str, body: &str) -> (r: Result<LlmReply, String>)
    ensures
        is_chat_result(r, success, status@, body@),
{
    if !success {
        return Err(http_error(status, body, 300));
    }
    match read_json(body) {
        Err(e) => {
            let mut s = "响应解析失败: ".to_owned();
            s.append(e.as_str());
            s.append("\n");
            s.append(text::truncate(body, 300).as_str());
            Err(s)
        },
        Ok(v) => parse_reply(&v, body),
    }
}

/// Reads the response to a question for the balance.
pub fn read_balance(success: bool, status: &str, body: &str) -> (r: Result<Json, String>)
    ensures
        match r {
            Ok(v) => success && json::json_parse(body@) == Some(v@),
            Err(e) => if success {
                json::json_parse(body@) is None && e@ == "响应解析失败: "@ + json::json_error(body@)
            } else {
                e@ == http_error_of(status@, body@, 200)
            },
        },
{
    if !success {
        return Err(http_error(status, body, 200));
    }
    match read_json(body) {
        Err(e) => {
            let mut s = "响应解析失败: ".to_owned();
            s.append(e.as_str());
            Err(s)
        },
        Ok(v) => Ok(v),
    }
}

// ---------- a stream ----------

/// A piece of a reply as it comes.
#[derive(Debug)]
pub enum StreamEvent {
    Reasoning { delta: String },
    Content { delta: String },
}

pub enum StreamEventView {
    Reasoning(Seq<char>),
    Content(Seq<char>),
}

impl View for StreamEvent {
    type V = StreamEventView;

    open spec fn view(&self) -> StreamEventView {
        match self {
            StreamEvent::Reasoning { delta } => StreamEventView::Reasoning(delta@),
            StreamEvent::Content { delta } => StreamEventView::Content(delta@),
        }
    }
}

/// A reply as far as it has come.
pub struct StreamedChat {
    /// What has arrived and was not read yet.
    pub buffer: String,
    pub text: String,
    pub reasoning: String,
    pub usage: Usage,
    /// Text that came together with a thought and is handed out next.
    pub pending_content: Option<String>,
}

pub struct StreamView {
    pub buffer: Seq<char>,
    pub text: Seq<char>,
    pub reasoning: Seq<char>,
    pub usage: Usage,
    pub pending: Option<Seq<char>>,
}

impl View for StreamedChat {
    type V = StreamView;

    open spec fn view(&self) -> StreamView {
        StreamView {
            buffer: self.buffer@,
            text: self.text@,
            reasoning: self.reasoning@,
            usage: self.usage,
            pending: text::opt_view(self.pending_content),
        }
    }
}

/// The change of the reply in a document of the stream.
pub open spec fn delta_of(v: JsonView) -> JsonView {
    json::field(choice_of(v), "delta"@)
}

pub open spec fn delta_reasoning(v: JsonView) -> Seq<char> {
    json::str_field_or(delta_of(v), "reasoning_content"@, ""@)
}

pub open spec fn delta_content(v: JsonView) -> Seq<char> {
    json::str_field_or(delta_of(v), "content"@, ""@)
}

/// A document of the stream taken in: the reply after it, and the piece to hand out.
pub open spec fn applied(s: StreamView, v: JsonView) -> (StreamView, Option<StreamEventView>) {
    let u = json::field(v, "usage"@);
    let usage = if u is Object {
        usage_of(u)
    } else {
        s.usage
    };
    let r = delta_reasoning(v);
    let c = delta_content(v);
    if r.len() > 0 {
        (
            StreamView {
                usage,
                reasoning: s.reasoning + r,
                pending: if c.len() > 0 {
                    Some(c)
                } else {
                    s.pending
                },
                ..s
            },
            Some(StreamEventView::Reasoning(r)),
        )
    } else if c.len() > 0 {
        (StreamView { usage, text: s.text + c, ..s }, Some(StreamEventView::Content(c)))
    } else {
        (StreamView { usage, ..s }, None)
    }
}

/// What one step of the reader came to.
#[derive(Debug)]
pub enum StreamStep {
    /// The user stopped the reply.
    Stopped,
    Event(StreamEvent),
    /// A line was read that carries no piece.
    Line,
    /// The end mark was read.
    Done,
    /// Nothing is left to read until more arrives.
    Starved,
}

pub enum StreamStepView {
    Stopped,
    Event(StreamEventView),
    Line,
    Done,
    Starved,
}

impl View for StreamStep {
    type V = StreamStepView;

    open spec fn view(&self) -> StreamStepView {
        match self {
            StreamStep::Stopped => StreamStepView::Stopped,
            StreamStep::Event(e) => StreamStepView::Event(e@),
            StreamStep::Line => StreamStepView::Line,
            StreamStep::Done => StreamStepView::Done,
            StreamStep::Starved => StreamStepView::Starved,
        }
    }
}

/// The data on a line of the stream.
pub open spec fn data_of(line: Seq<char>) -> Option<Seq<char>> {
    match text::strip_prefix_of(text::trim_of(line), "data:"@) {
        Some(d) => Some(text::trim_of(d)),
        None => None,
    }
}

/// One line of the stream read.
pub open spec fn line_read(s: StreamView, line: Seq<char>) -> (StreamView, StreamStepView) {
    match data_of(line) {
        None => (s, StreamStepView::Line),
        Some(d) => if d == "[DONE]"@ {
            (s, StreamStepView::Done)
        } else {
            match json::json_parse(d) {
                None => (s, StreamStepView::Line),
                Some(v) => {
                    let (t, e) = applied(s, v);
                    match e {
                        Some(x) => (t, StreamStepView::Event(x)),
                        None => (t, StreamStepView::Line),
                    }
                },
            }
        },
    }
}

/// One step of the reader: text that waits is handed out first, then a line is read.
pub open spec fn stream_step(s: StreamView, cancelled: bool) -> (StreamView, StreamStepView) {
    if cancelled {
        (s, StreamStepView::Stopped)
    } else if let Some(c) = s.pending {
        (
            StreamView { text: s.text + c, pending: None, ..s },
            StreamStepView::Event(StreamEventView::Content(c)),
        )
    } else {
        match text::find_char_of(s.buffer, '\n') {
            Some(i) => line_read(StreamView { buffer: s.buffer.skip(i + 1), ..s }, s.buffer.take(i + 1)),
            None => (s, StreamStepView::Starved),
        }
    }
}

impl StreamedChat {
    pub fn new() -> (r: StreamedChat)
        ensures
            r@ == (StreamView {
                buffer: Seq::<char>::empty(),
                text: Seq::<char>::empty(),
                reasoning: Seq::<char>::empty(),
                usage: no_usage(),
                pending: None,
            }),
    {
        let r = StreamedChat {
            buffer: String::new(),
            text: String::new(),
            reasoning: String::new(),
            usage: Usage::default(),
            pending_content: None,
        };
        assert(r.buffer@ =~= Seq::<char>::empty());
        r
    }

    /// Takes in a chunk as it came over the network.
    pub fn feed(&mut self, chunk: &[u8])
        ensures
            final(self)@ == (StreamView {
                buffer: old(self)@.buffer + text::lossy_text(chunk@),
                ..old(self)@
            }),
    {
        let t = text::from_utf8_lossy(chunk);
        self.feed_text(t.as_str());
    }

    /// Takes in a piece of the stream's text.
    pub fn feed_text(&mut self, t: &str)
        ensures
            final(self)@ == (StreamView { buffer: old(self)@.buffer + t@, ..old(self)@ }),
    {
        self.buffer.append(t);
    }

    /// Takes in a document of the stream; gives the piece to hand out, if there is one.
    pub fn apply_chunk(&mut self, v: &Json) -> (r: Option<StreamEvent>)
        ensures
            final(self)@ == applied(old(self)@, v@).0,
            match r {
                Some(e) => applied(old(self)@, v@).1 == Some(e@),
                None => applied(old(self)@, v@).1 is None,
            },
    {
        let choice = match v.get("choices") {
            Some(c) => match c.at(0) {
                Some(x) => x.clone(),
                None => Json::null(),
            },
            None => Json::null(),
        };
        let delta = choice.field("delta");
        if let Some(u) = v.get("usage") {
            if u.is_object() {
                self.usage = read_usage(u);
            }
        }
        proof {
            reveal_strlit("");
        }
        let thought = delta.str_field_or("reasoning_content", "");
        let content = delta.str_field_or("content", "");
        if !thought.is_empty() {
            self.reasoning.append(thought);
            if !content.is_empty() {
                self.pending_content = Some(content.to_owned());
            }
            return Some(StreamEvent::Reasoning { delta: thought.to_owned() });
        }
        if !content.is_empty() {
            self.text.append(content);
            return Some(StreamEvent::Content { delta: content.to_owned() });
        }
        None
    }

    /// Takes one step through what has arrived.
    pub fn next_event(&mut self, cancelled: bool) -> (r: StreamStep)
        ensures
            (final(self)@, r@) == stream_step(old(self)@, cancelled),
    {
        if cancelled {
            return StreamStep::Stopped;
        }
        if let Some(c) = &self.pending_content {
            let delta = c.clone();
            self.text.append(delta.as_str());
            self.pending_content = None;
            return StreamStep::Event(StreamEvent::Content { delta });
        }
        let n: usize = self.buffer.as_str().unicode_len();
        let pos: usize = match text::find_char(self.buffer.as_str(), '\n') {
            Some(i) => i,
            None => {
                return StreamStep::Starved;
            },
        };
        let line = self.buffer.as_str().substring_char(0, pos + 1).to_owned();
        let rest = self.buffer.as_str().substring_char(pos + 1, n).to_owned();
        assert(line@ == self.buffer@.take(pos + 1));
        assert(rest@ == self.buffer@.skip(pos + 1));
        self.buffer = rest;
        if let Some(data) = text::strip_prefix(text::trim(line.as_str()), "data:") {
            let data = text::trim(data);
            if text::same(data, "[DONE]") {
                return StreamStep::Done;
            }
            if let Some(v) = parse_json(data) {
                if let Some(e) = self.apply_chunk(&v) {
                    return StreamStep::Event(e);
                }
            }
        }
        StreamStep::Line
    }

    /// The reply, once the stream has ended.
    pub fn finish(self) -> (r: LlmReply)
        ensures
            r@ == (LlmReplyView {
                text: text::trim_of(self.text@),
                reasoning: text::trim_of(self.reasoning@),
                usage: self.usage,
            }),
    {
        LlmReply {
            text: text::trim(self.text.as_str()).to_owned(),
            reasoning: text::trim(self.reasoning.as_str()).to_owned(),
            usage: self.usage,
        }
    }
}

// ---------- what is asked of a model ----------

/// One message to be folded into a summary, with who said it.
pub open spec fn spoken_line(m: ApiMessageView) -> Seq<char> {
    (if m.role == "assistant"@ {
        "AI"@
    } else {
        "用户"@
    }) + ": "@ + text::truncate_of(m.content, 600) + "\n"@
}

pub open spec fn spoken_lines(msgs: Seq<ApiMessageView>) -> Seq<char>
    decreases msgs.len(),
{
    if msgs.len() == 0 {
        Seq::<char>::empty()
    } else {
        spoken_lines(msgs.drop_last()) + spoken_line(msgs.last())
    }
}

pub open spec fn summary_intro() -> Seq<char> {
    "请把下面的对话历史压缩成简洁的要点摘要,保留:关键事实、用户的偏好与要求、尚未完成的事项、对话主题。\n每条要点必须注明是谁说的:用户说的标「用户:」,AI 说的标「AI:」。\n只输出摘要本身。\n\n"@
}

/// The request to fold messages, and the summary so far, into a summary.
pub open spec fn summary_request_of(old_summary: Seq<char>, dropped: Seq<ApiMessageView>) -> Seq<char> {
    let head = if old_summary.len() > 0 {
        summary_intro() + "【已有摘要】\n"@ + old_summary + "\n\n"@
    } else {
        summary_intro()
    };
    head + "【新增对话】\n"@ + spoken_lines(dropped)
}

pub fn summary_request(old_summary: &str, dropped: &Vec<ApiMessage>) -> (r: String)
    ensures
        r@ == summary_request_of(old_summary@, msgs_view(dropped@)),
{
    let mut content =
        "请把下面的对话历史压缩成简洁的要点摘要,保留:关键事实、用户的偏好与要求、尚未完成的事项、对话主题。\n每条要点必须注明是谁说的:用户说的标「用户:」,AI 说的标「AI:」。\n只输出摘要本身。\n\n".to_owned();
    if !old_summary.is_empty() {
        content.append("【已有摘要】\n");
        content.append(old_summary);
        content.append("\n\n");
    }
    content.append("【新增对话】\n");
    let ghost head = content@;
    let ghost msgs = msgs_view(dropped@);
    let mut i: usize = 0;
    assert(head + spoken_lines(msgs.take(0)) =~= head);
    while i < dropped.len()
        invariant
            i <= dropped@.len(),
            msgs == msgs_view(dropped@),
            content@ == head + spoken_lines(msgs.take(i as int)),
        decreases dropped@.len() - i,
    {
        let d = &dropped[i];
        let ghost before = content@;
        let role = if text::same(d.role.as_str(), "assistant") {
            "AI"
        } else {
            "用户"
        };
        content.append(role);
        content.append(": ");
        content.append(text::truncate(d.content.as_str(), 600).as_str());
        content.append("\n");
        proof {
            assert(msgs.take(i + 1).drop_last() == msgs.take(i as int));
            assert(msgs.take(i + 1).last() == d@);
            assert(content@ =~= before + spoken_line(d@));
            assert(content@ =~= head + spoken_lines(msgs.take(i + 1)));
        }
        i += 1;
    }
    assert(msgs.take(msgs.len() as int) == msgs);
    content
}

/// The most tokens that a summary is asked for.
pub fn summary_budget(max_tokens: u32) -> (r: u32)
    ensures
        r == if max_tokens < 64 {
            64
        } else {
            max_tokens
        },
{
    if max_tokens < 64 {
        64
    } else {
        max_tokens
    }
}

pub open spec fn decide_rules() -> Seq<char> {
    "\n\n(你是这个群里的一员,下面是可能触发你回复的消息。判断你是否需要回复:\n- 消息 @ 了你、引用回复了你、是发给你的私聊、明确提问/求助/提到你的称呼 → 需要回复;\n- 纯闲聊、与你无关、无需回应 → 不需要回复。\n思考过程请保持简短:只需想清楚是否需要回复、以及如果需要的话大致回复什么即可。\n只输出一个字母:需要回复输出 Y,不需要输出 N。)"@
}

/// What the model is told of the message to decide on: who sent it, where that is
/// known, how it concerns the bot, and its text.
pub open spec fn decide_question(text: Seq<char>, trigger_hint: Seq<char>, sender: i64) -> Seq<char> {
    (if sender > 0 {
        "【发送者 QQ:"@ + number::dec(sender as int) + "】\n"@
    } else {
        Seq::<char>::empty()
    }) + "【触发说明:"@ + trigger_hint + "】\n"@ + text
}

/// The question whether a message is to be answered.
pub fn build_decide_messages(prompt: &str, text: &str, trigger_hint: &str, sender: i64) -> (r: Vec<
    ApiMessage,
>)
    ensures
        msgs_view(r@) == seq![
            msg_of("system"@, prompt@ + decide_rules()),
            msg_of("user"@, decide_question(text@, trigger_hint@, sender)),
        ],
{
    let mut user = String::new();
    if sender > 0 {
        user.append("【发送者 QQ:");
        user.append(number::i64_text(sender).as_str());
        user.append("】\n");
    }
    proof {
        if sender > 0 {
            assert(user@ =~= "【发送者 QQ:"@ + number::dec(sender as int) + "】\n"@);
        } else {
            assert(user@ =~= Seq::<char>::empty());
        }
    }
    user.append("【触发说明:");
    user.append(trigger_hint);
    user.append("】\n");
    user.append(text);
    let mut system = prompt.to_owned();
    system.append(
        "\n\n(你是这个群里的一员,下面是可能触发你回复的消息。判断你是否需要回复:\n- 消息 @ 了你、引用回复了你、是发给你的私聊、明确提问/求助/提到你的称呼 → 需要回复;\n- 纯闲聊、与你无关、无需回应 → 不需要回复。\n思考过程请保持简短:只需想清楚是否需要回复、以及如果需要的话大致回复什么即可。\n只输出一个字母:需要回复输出 Y,不需要输出 N。)",
    );
    let r = vec![message("system", system), message("user", user)];
    assert(msgs_view(r@) =~= seq![r@[0]@, r@[1]@]);
    r
}

/// The decision in a reply: only a plain no is one.
pub open spec fn decision_of(s: Seq<char>) -> bool {
    let t = text::trim_of(s);
    !(t.len() > 0 && (t[0] == 'N' || t[0] == 'n'))
}

pub fn parse_decision(s: &str) -> (r: bool)
    ensures
        r == decision_of(s@),
{
    let t = text::trim(s);
    if t.unicode_len() == 0 {
        return true;
    }
    let c: char = t.get_char(0);
    !(c == 'N' || c == 'n')
}

/// The most tokens of a decision.
pub const DECIDE_TOKENS: u32 = 32;

/// The most tokens of the answer to a trial.
pub const PING_TOKENS: u32 = 16;

/// A model as it is asked for a decision: it may say only so much, and is as it was
/// otherwise.
pub fn decide_model(m: &ModelConfig) -> (r: ModelConfig)
    ensures
        r.max_tokens == DECIDE_TOKENS,
        r.name@ == m.name@,
        r.base_url@ == m.base_url@,
        r.api_key@ == m.api_key@,
        r.model@ == m.model@,
        r.kind@ == m.kind@,
        r.thinking@ == m.thinking@,
        r.reasoning_effort@ == m.reasoning_effort@,
        r.timeout_secs == m.timeout_secs,
{
    ModelConfig {
        name: m.name.clone(),
        base_url: m.base_url.clone(),
        api_key: m.api_key.clone(),
        model: m.model.clone(),
        kind: m.kind.clone(),
        thinking: m.thinking.clone(),
        reasoning_effort: m.reasoning_effort.clone(),
        max_tokens: DECIDE_TOKENS,
        timeout_secs: m.timeout_secs,
    }
}

/// What a model is asked on trial.
pub fn ping_messages() -> (r: Vec<ApiMessage>)
    ensures
        msgs_view(r@) == seq![msg_of("user"@, "回复「ok」两个字"@)],
{
    let r = vec![message("user", "回复「ok」两个字".to_owned())];
    assert(msgs_view(r@) =~= seq![msg_of("user"@, "回复「ok」两个字"@)]);
    r
}

/// The report of a successful trial of a model.
pub fn ping_text(reply: &str, elapsed_ms: u64) -> (r: String)
    ensures
        r@ == "✓ 连通,模型回复:"@ + text::truncate_of(reply@, 50) + " (耗时 "@ + number::dec(
            elapsed_ms as int,
        ) + "ms)"@,
{
    let mut s = "✓ 连通,模型回复:".to_owned();
    s.append(text::truncate(reply, 50).as_str());
    s.append(" (耗时 ");
    s.append(number::u64_text(elapsed_ms).as_str());
    s.append("ms)");
    s
}

// ---------- laws ----------

/// The text handed out by a step.
pub open spec fn handed_content(e: StreamStepView) -> Seq<char> {
    match e {
        StreamStepView::Event(StreamEventView::Content(c)) => c,
        _ => Seq::<char>::empty(),
    }
}

pub open spec fn handed_reasoning(e: StreamStepView) -> Seq<char> {
    match e {
        StreamStepView::Event(StreamEventView::Reasoning(r)) => r,
        _ => Seq::<char>::empty(),
    }
}

/// What is handed out is what is kept: after any step the text and the thoughts have
/// grown by exactly the piece handed out.
pub proof fn law_stream_hands_out_all(s: StreamView, cancelled: bool)
    ensures
        stream_step(s, cancelled).0.text == s.text + handed_content(stream_step(s, cancelled).1),
        stream_step(s, cancelled).0.reasoning == s.reasoning + handed_reasoning(
            stream_step(s, cancelled).1,
        ),
{
    assert(s.text + Seq::<char>::empty() =~= s.text);
    assert(s.reasoning + Seq::<char>::empty() =~= s.reasoning);
}

/// Text that comes together with a thought is not lost: it waits, and the next step
/// hands it out.
pub proof fn law_stream_keeps_joint_text(s: StreamView, v: JsonView)
    requires
        s.pending is None,
    ensures
        ({
            let t = applied(s, v).0;
            let waiting = match t.pending {
                Some(c) => c,
                None => Seq::<char>::empty(),
            };
            &&& t.reasoning == s.reasoning + delta_reasoning(v)
            &&& t.text + waiting == s.text + delta_content(v)
            &&& t.pending is Some ==> stream_step(t, false).1 == StreamStepView::Event(
                StreamEventView::Content(delta_content(v)),
            )
        }),
{
    let t = applied(s, v).0;
    let r = delta_reasoning(v);
    let c = delta_content(v);
    if r.len() == 0 {
        assert(s.reasoning + r =~= s.reasoning);
    }
    if c.len() == 0 {
        assert(s.text + c =~= s.text);
    }
    assert(t.text + Seq::<char>::empty() =~= t.text);
}

/// A request never asks for more than the model allows.
pub proof fn law_max_tokens_capped(
    m: ModelConfig,
    deepseek: bool,
    messages: Seq<ApiMessageView>,
    max_tokens: Option<u32>,
    stream: bool,
)
    ensures
        match body_of(m, deepseek, messages, max_tokens, stream).max_tokens {
            Some(n) => max_tokens is Some && n <= m.max_tokens && n <= max_tokens->0,
            None => max_tokens is None,
        },
{
}

/// A request says what it was made for: its model is that of the settings, its messages
/// are those given, all of them in their order with their roles and contents, and it
/// asks for a stream, with its cost at the end, exactly where one is wanted.
pub proof fn law_body_is_what_was_asked(
    m: ModelConfig,
    deepseek: bool,
    messages: Seq<ApiMessageView>,
    max_tokens: Option<u32>,
    stream: bool,
)
    ensures
        ({
            let b = body_of(m, deepseek, messages, max_tokens, stream);
            &&& b.model == m.model@
            &&& b.messages.len() == messages.len()
            &&& forall|i: int|
                0 <= i < messages.len() ==> (#[trigger] b.messages[i]).role == messages[i].role
                    && b.messages[i].content == messages[i].content
            &&& b.stream <==> stream
            &&& b.include_usage <==> stream
        }),
{
}

/// Thinking and temperature go by the settings: a model of the family that thinks is told
/// whether to, off exactly where the settings say so; one that thinks gets its effort and
/// no temperature, any other a temperature and no effort.
pub proof fn law_thinking_is_as_set(
    m: ModelConfig,
    deepseek: bool,
    messages: Seq<ApiMessageView>,
    max_tokens: Option<u32>,
    stream: bool,
)
    ensures
        ({
            let b = body_of(m, deepseek, messages, max_tokens, stream);
            &&& deepseek ==> b.thinking == Some(m.thinking@ != "disabled"@)
            &&& !deepseek ==> b.thinking is None
            &&& b.with_temperature <==> b.thinking != Some(true)
            &&& b.thinking != Some(true) ==> b.reasoning_effort is None
            &&& b.thinking == Some(true) ==> (b.reasoning_effort is Some <==> m.reasoning_effort@.len() > 0)
            &&& b.reasoning_effort matches Some(e) ==> e == m.reasoning_effort@
        }),
{
}

/// A limit on a reply is the smaller of the one asked for and the one of the model.
pub proof fn law_limit_is_the_smaller(
    m: ModelConfig,
    deepseek: bool,
    messages: Seq<ApiMessageView>,
    t: u32,
    stream: bool,
)
    ensures
        body_of(m, deepseek, messages, Some(t), stream).max_tokens matches Some(n) && n <= t && n <= m.max_tokens
            && (n == t || n == m.max_tokens),
        body_of(m, deepseek, messages, None, stream).max_tokens is None,
{
}

/// A model belongs to the family exactly where its name, in small letters, has the name
/// of the family in it.
pub proof fn law_family_goes_by_name(a: Seq<char>, b: Seq<char>, model: Seq<char>)
    ensures
        text::lowercase(model) == a + "deepseek"@ + b ==> is_deepseek_of(model),
        is_deepseek_of(model) ==> exists|i: int|
            0 <= i <= text::lowercase(model).len() - 8 && #[trigger] text::lowercase(model).subrange(i, i + 8)
                == "deepseek"@,
{
    reveal_strlit("deepseek");
    let s = text::lowercase(model);
    if s == a + "deepseek"@ + b {
        assert(s.subrange(a.len() as int, (a.len() + 8) as int) =~= "deepseek"@);
        assert(text::occurs_at(s, "deepseek"@, a.len() as int));
    }
    if is_deepseek_of(model) {
        let i = choose|i: int| text::occurs_at(s, "deepseek"@, i);
        assert(s.subrange(i, i + 8) == "deepseek"@);
    }
}

/// An address is the base of the model's, without the slashes at its end, and the path
/// behind it: nothing else of the base is lost.
pub proof fn law_address_is_base_and_path(m: ModelConfig, path: Seq<char>)
    ensures
        ({
            let url = url_of(m, path);
            let n = url.len() - path.len();
            &&& 0 <= n <= m.base_url@.len()
            &&& url.skip(n) == path
            &&& url.take(n) == m.base_url@.take(n)
            &&& n > 0 ==> url[n - 1] != '/'
            &&& forall|i: int| n <= i < m.base_url@.len() ==> #[trigger] m.base_url@[i] == '/'
        }),
{
    let s = m.base_url@;
    lemma_trim_slashes(s);
    let t = text::trim_end_matches_of(s, "/"@);
    let url = url_of(m, path);
    assert(url.skip(t.len() as int) =~= path);
    assert(url.take(t.len() as int) =~= t);
}

proof fn lemma_trim_slashes(s: Seq<char>)
    ensures
        ({
            let t = text::trim_end_matches_of(s, "/"@);
            &&& t.len() <= s.len()
            &&& t == s.take(t.len() as int)
            &&& t.len() > 0 ==> t.last() != '/'
            &&& forall|i: int| t.len() <= i < s.len() ==> #[trigger] s[i] == '/'
        }),
    decreases s.len(),
{
    reveal_strlit("/");
    if text::ends(s, "/"@) {
        let u = s.take(s.len() - 1);
        assert(s.skip(s.len() - 1)[0] == "/"@[0]);
        lemma_trim_slashes(u);
        let t = text::trim_end_matches_of(u, "/"@);
        assert(u.take(t.len() as int) =~= s.take(t.len() as int));
        assert forall|i: int| t.len() <= i < s.len() implies #[trigger] s[i] == '/' by {
            if i < s.len() - 1 {
                assert(u[i] == s[i]);
            }
        }
    } else {
        assert(s.take(s.len() as int) =~= s);
        if s.len() > 0 && s.last() == '/' {
            assert(s.skip(s.len() - 1) =~= "/"@);
        }
    }
}

/// The cost of a reply is what the document reports under each name, and zero where it
/// reports nothing.
pub proof fn law_usage_is_as_reported(u: JsonView)
    ensures
        ({
            let c = usage_of(u);
            &&& json::u64_of(json::field(u, "prompt_tokens"@)) matches Some(n) ==> c.prompt_tokens == n
            &&& json::u64_of(json::field(u, "completion_tokens"@)) matches Some(n) ==> c.completion_tokens == n
            &&& json::u64_of(json::field(u, "prompt_cache_hit_tokens"@)) matches Some(n) ==> c.cache_hit == n
            &&& json::u64_of(json::field(u, "prompt_cache_miss_tokens"@)) matches Some(n) ==> c.cache_miss == n
            &&& json::u64_of(
                json::field(json::field(u, "completion_tokens_details"@), "reasoning_tokens"@),
            ) matches Some(n) ==> c.reasoning_tokens == n
            &&& !(u is Object) ==> c == no_usage()
        }),
        no_usage().prompt_tokens == 0 && no_usage().completion_tokens == 0 && no_usage().cache_hit == 0
            && no_usage().cache_miss == 0 && no_usage().reasoning_tokens == 0,
{
}

/// A reply is the message of the first choice: its text and its thoughts are those of
/// the message, without white space around them, and its cost is that of the document.
pub proof fn law_reply_is_the_first_choice(
    v: JsonView,
    choices: Seq<JsonView>,
    content: Seq<char>,
    thoughts: Seq<char>,
)
    requires
        json::field(v, "choices"@) == JsonView::Array(choices),
        choices.len() > 0,
        json::field(json::field(choices[0], "message"@), "content"@) == JsonView::Str(content),
        json::field(json::field(choices[0], "message"@), "reasoning_content"@) == JsonView::Str(thoughts),
    ensures
        match reply_of(v) {
            Some(r) => r.text == text::trim_of(content) && r.reasoning == text::trim_of(thoughts) && r.usage
                == usage_of(json::field(v, "usage"@)),
            None => text::trim_of(content).len() == 0 && text::trim_of(thoughts).len() == 0,
        },
        text::trim_of(content).len() > 0 || text::trim_of(thoughts).len() > 0 ==> reply_of(v) is Some,
{
}

/// A document without choices is no reply.
pub proof fn law_no_choice_no_reply(v: JsonView)
    requires
        !(json::field(v, "choices"@) is Array) || json::elements(json::field(v, "choices"@)).len() == 0,
    ensures
        reply_of(v) is None,
{
    reveal_strlit("");
    assert(text::trim_of(""@) =~= Seq::<char>::empty());
}

/// A piece of a stream adds what it says to what it is about, hands out just that, and
/// touches nothing that has not arrived; the cost is that of the last document which
/// reports one.
pub proof fn law_piece_adds_what_it_says(s: StreamView, v: JsonView, choices: Seq<JsonView>, c: Seq<char>)
    requires
        json::field(v, "choices"@) == JsonView::Array(choices),
        choices.len() > 0,
        json::field(json::field(choices[0], "delta"@), "content"@) == JsonView::Str(c),
        !(json::field(json::field(choices[0], "delta"@), "reasoning_content"@) is Str),
        c.len() > 0,
    ensures
        applied(s, v).0.text == s.text + c,
        applied(s, v).0.reasoning == s.reasoning,
        applied(s, v).0.buffer == s.buffer,
        applied(s, v).0.pending == s.pending,
        applied(s, v).1 == Some(StreamEventView::Content(c)),
        json::field(v, "usage"@) is Object ==> applied(s, v).0.usage == usage_of(json::field(v, "usage"@)),
        !(json::field(v, "usage"@) is Object) ==> applied(s, v).0.usage == s.usage,
{
    reveal_strlit("");
}

/// A thought adds itself to the thoughts and is handed out; a document of neither changes
/// at most the cost.
pub proof fn law_thought_adds_itself(s: StreamView, v: JsonView)
    ensures
        ({
            let d = json::field(json::element(json::field(v, "choices"@), 0), "delta"@);
            let (t, e) = applied(s, v);
            &&& match json::field(d, "reasoning_content"@) {
                JsonView::Str(r) => r.len() > 0 ==> t.reasoning == s.reasoning + r && e == Some(
                    StreamEventView::Reasoning(r),
                ) && t.text == s.text && t.buffer == s.buffer,
                _ => true,
            }
            &&& !(json::field(d, "reasoning_content"@) is Str) && !(json::field(d, "content"@) is Str) ==> e is None
                && t.text == s.text && t.reasoning == s.reasoning && t.pending == s.pending && t.buffer == s.buffer
            &&& json::field(v, "usage"@) is Object ==> t.usage == usage_of(json::field(v, "usage"@))
            &&& !(json::field(v, "usage"@) is Object) ==> t.usage == s.usage
        }),
{
    reveal_strlit("");
}

/// A stream is read line by line: a step takes exactly the first line off what has
/// arrived, waits while there is none, and leaves everything as it is when the user has
/// stopped the reply.
pub proof fn law_stream_is_read_line_by_line(s: StreamView, line: Seq<char>, rest: Seq<char>)
    requires
        s.pending is None,
        s.buffer == line + seq!['\n'] + rest,
        forall|i: int| 0 <= i < line.len() ==> #[trigger] line[i] != '\n',
    ensures
        stream_step(s, false).0.buffer == rest,
        stream_step(s, true) == (s, StreamStepView::Stopped),
        stream_step(s, false).1 != StreamStepView::Starved,
        text::trim_of(line + seq!['\n']) == "data:"@ + " [DONE]"@ ==> stream_step(s, false).1
            == StreamStepView::Done,
{
    text::lemma_char_from(s.buffer, '\n', 0);
    let i = text::find_char_of(s.buffer, '\n');
    assert(s.buffer[line.len() as int] == '\n');
    assert(i == Some(line.len() as int)) by {
        if let Some(j) = i {
            if j < line.len() {
                assert(s.buffer[j] == line[j]);
            }
        }
    }
    assert(s.buffer.skip((line.len() + 1) as int) =~= rest);
    assert(s.buffer.take((line.len() + 1) as int) =~= line + seq!['\n']);
    if text::trim_of(line + seq!['\n']) == "data:"@ + " [DONE]"@ {
        reveal_strlit("data:");
        reveal_strlit(" [DONE]");
        reveal_strlit("[DONE]");
        let t = "data:"@ + " [DONE]"@;
        assert(t.take(5) =~= "data:"@);
        assert(t.skip(5) =~= " [DONE]"@);
        let d = " [DONE]"@;
        assert(d.skip(1) =~= "[DONE]"@);
        assert(text::trim_start_of(d) == text::trim_start_of(d.skip(1)));
        assert(text::trim_of(d) =~= "[DONE]"@);
    }
}

/// A line that carries no data changes nothing.
pub proof fn law_other_lines_change_nothing(s: StreamView, line: Seq<char>)
    requires
        !text::begins(text::trim_of(line), "data:"@),
    ensures
        line_read(s, line) == (s, StreamStepView::Line),
{
}

/// What is folded into a summary is told whole: the summary so far, and every message in
/// its order, each as said by the bot or by a user, cut at its length.
pub proof fn law_summary_tells_all(old_summary: Seq<char>, dropped: Seq<ApiMessageView>, m: ApiMessageView)
    ensures
        text::ends(
            summary_request_of(old_summary, dropped.push(m)),
            (if m.role == "assistant"@ {
                "AI: "@
            } else {
                "用户: "@
            }) + text::truncate_of(m.content, 600) + "\n"@,
        ),
        text::begins(summary_request_of(old_summary, dropped.push(m)), summary_request_of(old_summary, dropped)),
        old_summary.len() > 0 ==> text::includes(summary_request_of(old_summary, dropped), old_summary),
{
    reveal_strlit("AI: ");
    reveal_strlit("用户: ");
    reveal_strlit("AI");
    reveal_strlit("用户");
    reveal_strlit(": ");
    let now = summary_request_of(old_summary, dropped.push(m));
    let before = summary_request_of(old_summary, dropped);
    assert(dropped.push(m).drop_last() =~= dropped);
    let line = (if m.role == "assistant"@ {
        "AI: "@
    } else {
        "用户: "@
    }) + text::truncate_of(m.content, 600) + "\n"@;
    assert(line =~= spoken_line(m));
    assert(now =~= before + line);
    assert(now.take(before.len() as int) =~= before);
    assert(now.skip(now.len() - line.len()) =~= line);
    if old_summary.len() > 0 {
        let at = (summary_intro() + "【已有摘要】\n"@).len() as int;
        assert(before.subrange(at, at + old_summary.len()) =~= old_summary);
        assert(text::occurs_at(before, old_summary, at));
    }
}

/// A decision is asked with the message itself, how it concerns the bot and, where that is
/// known, who sent it.
pub proof fn law_decision_is_asked_on_the_message(words: Seq<char>, hint: Seq<char>, sender: i64)
    ensures
        text::ends(decide_question(words, hint, sender), hint + "】\n"@ + words),
        sender > 0 ==> text::begins(
            decide_question(words, hint, sender),
            "【发送者 QQ:"@ + number::dec(sender as int) + "】"@,
        ),
        sender <= 0 ==> text::begins(decide_question(words, hint, sender), "【触发说明:"@),
{
    let q = decide_question(words, hint, sender);
    let tail = hint + "】\n"@ + words;
    assert(q.skip(q.len() - tail.len()) =~= tail);
    reveal_strlit("】\n");
    reveal_strlit("】");
    let head = "【发送者 QQ:"@ + number::dec(sender as int) + "】"@;
    if sender > 0 {
        assert(q.take(head.len() as int) =~= head);
    } else {
        assert(q.take("【触发说明:"@.len() as int) =~= "【触发说明:"@);
    }
}

/// Only a plain no is a no: a reply that begins with an N, of either size; anything else,
/// an empty reply too, is a yes.
pub proof fn law_only_no_is_no(reply: Seq<char>, rest: Seq<char>)
    ensures
        text::trim_of(reply) == seq!['N'] + rest ==> !decision_of(reply),
        text::trim_of(reply) == seq!['n'] + rest ==> !decision_of(reply),
        text::trim_of(reply) == seq!['Y'] + rest ==> decision_of(reply),
        text::trim_of(reply).len() == 0 ==> decision_of(reply),
        !decision_of(reply) ==> text::trim_of(reply).len() > 0 && (text::trim_of(reply)[0] == 'N'
            || text::trim_of(reply)[0] == 'n'),
{
}

/// A failed response is told with its status and the beginning of its body.
pub proof fn law_failure_is_told(status: Seq<char>, body: Seq<char>, cap: int)
    requires
        cap >= 0,
    ensures
        text::begins(http_error_of(status, body, cap), "HTTP "@ + status + ": "@),
        body.len() <= cap ==> http_error_of(status, body, cap) == "HTTP "@ + status + ": "@ + body,
        body.len() > cap ==> text::begins(
            http_error_of(status, body, cap),
            "HTTP "@ + status + ": "@ + body.take(cap),
        ),
        text::begins(empty_reply_error(body), "模型返回空内容"@),
{
    reveal_strlit("模型返回空内容");
    reveal_strlit("模型返回空内容: ");
    let e = http_error_of(status, body, cap);
    let head = "HTTP "@ + status + ": "@;
    assert(e.take(head.len() as int) =~= head);
    if body.len() > cap {
        assert(e.take(head.len() + cap) =~= head + body.take(cap));
    }
    assert(empty_reply_error(body).take(7) =~= "模型返回空内容"@);
}

/// A response is what it says: without a success an error with its status; with one the
/// reply in it, and an error where it holds none or cannot be read.
pub proof fn law_response_is_what_it_says(
    r: Result<LlmReply, String>,
    success: bool,
    status: Seq<char>,
    body: Seq<char>,
)
    requires
        is_chat_result(r, success, status, body),
    ensures
        r is Ok ==> success,
        !success ==> (r matches Err(e) && text::begins(e@, "HTTP "@ + status)),
        success && json::json_parse(body) is None ==> r is Err,
        success ==> (json::json_parse(body) matches Some(v) ==> match reply_of(v) {
            Some(reply) => r matches Ok(x) && x@ == reply,
            None => r matches Err(e) && text::begins(e@, "模型返回空内容"@),
        }),
{
    reveal_strlit("模型返回空内容");
    reveal_strlit("模型返回空内容: ");
    if let Err(e) = r {
        if !success {
            let h = "HTTP "@ + status;
            assert(e@.take(h.len() as int) =~= h);
        } else if json::json_parse(body) is Some {
            assert(e@.take(7) =~= "模型返回空内容"@);
        }
    }
}

/// Without a summary so far none is spoken of.
pub proof fn law_first_summary_starts_from_nothing(dropped: Seq<ApiMessageView>)
    ensures
        summary_request_of(Seq::<char>::empty(), dropped) == summary_intro() + "【新增对话】\n"@ + spoken_lines(dropped),
{
}

} // verus!
