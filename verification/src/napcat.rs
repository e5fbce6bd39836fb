//! The OneBot protocol as NapCat speaks it: what an incoming frame says.
//!
//! Messages, notices, requests and heartbeats are read into plain records. An event of
//! an unknown kind is passed on with its text, so that nothing is lost.

use vstd::prelude::*;
use vstd::string::*;
use crate::config::Config;
use crate::json;
use crate::json::{parse_json, Json, JsonView, Part, PartView};
use crate::number;
use crate::text;

verus! {

#[derive(Debug, Clone, Copy, PartialEq, Eq, Structural)]
pub enum MsgKind {
    Group,
    Private,
}

/// A message of a group or of a private conversation.
#[derive(Debug, Clone)]
pub struct ParsedMsg {
    pub kind: MsgKind,
    pub group_id: Option<i64>,
    pub user_id: i64,
    /// Sent by the bot itself.
    pub is_self: bool,
    /// The text, with a placeholder for each piece of other content.
    pub text: String,
    /// The bot was called by `@`.
    pub at_me: bool,
    /// A message of the bot was quoted.
    pub reply_me: bool,
    /// The event as it came.
    pub raw: Json,
}

pub struct ParsedMsgView {
    pub kind: MsgKind,
    pub group_id: Option<i64>,
    pub user_id: i64,
    pub is_self: bool,
    pub text: Seq<char>,
    pub at_me: bool,
    pub reply_me: bool,
    pub raw: JsonView,
}

impl View for ParsedMsg {
    type V = ParsedMsgView;

    open spec fn view(&self) -> ParsedMsgView {
        ParsedMsgView {
            kind: self.kind,
            group_id: self.group_id,
            user_id: self.user_id,
            is_self: self.is_self,
            text: self.text@,
            at_me: self.at_me,
            reply_me: self.reply_me,
            raw: self.raw@,
        }
    }
}

/// A notice, of whatever type.
#[derive(Debug, Clone)]
pub struct NoticeInfo {
    pub notice_type: String,
    pub group_id: Option<i64>,
    pub user_id: Option<i64>,
    pub operator_id: Option<i64>,
    /// What happened, in words.
    pub desc: String,
    pub raw: Json,
}

pub struct NoticeView {
    pub notice_type: Seq<char>,
    pub group_id: Option<i64>,
    pub user_id: Option<i64>,
    pub operator_id: Option<i64>,
    pub desc: Seq<char>,
    pub raw: JsonView,
}

impl View for NoticeInfo {
    type V = NoticeView;

    open spec fn view(&self) -> NoticeView {
        NoticeView {
            notice_type: self.notice_type@,
            group_id: self.group_id,
            user_id: self.user_id,
            operator_id: self.operator_id,
            desc: self.desc@,
            raw: self.raw@,
        }
    }
}

/// A request to be accepted as a friend or into a group.
#[derive(Debug, Clone)]
pub struct RequestInfo {
    pub request_type: String,
    pub group_id: Option<i64>,
    pub user_id: i64,
    pub comment: String,
    pub flag: String,
    pub raw: Json,
}

pub struct RequestView {
    pub request_type: Seq<char>,
    pub group_id: Option<i64>,
    pub user_id: i64,
    pub comment: Seq<char>,
    pub flag: Seq<char>,
    pub raw: JsonView,
}

impl View for RequestInfo {
    type V = RequestView;

    open spec fn view(&self) -> RequestView {
        RequestView {
            request_type: self.request_type@,
            group_id: self.group_id,
            user_id: self.user_id,
            comment: self.comment@,
            flag: self.flag@,
            raw: self.raw@,
        }
    }
}

#[derive(Debug, Clone)]
pub enum BotEvent {
    Message(ParsedMsg),
    Notice(NoticeInfo),
    Request(RequestInfo),
    /// A sign of life, with the state of the account.
    Heartbeat { online: bool, good: bool, interval_ms: u64 },
    /// Another event of the connection, described in words.
    Lifecycle(String),
}

pub enum BotEventView {
    Message(ParsedMsgView),
    Notice(NoticeView),
    Request(RequestView),
    Heartbeat { online: bool, good: bool, interval_ms: u64 },
    Lifecycle(Seq<char>),
}

impl View for BotEvent {
    type V = BotEventView;

    open spec fn view(&self) -> BotEventView {
        match self {
            BotEvent::Message(m) => BotEventView::Message(m@),
            BotEvent::Notice(n) => BotEventView::Notice(n@),
            BotEvent::Request(r) => BotEventView::Request(r@),
            BotEvent::Heartbeat { online, good, interval_ms } => BotEventView::Heartbeat {
                online: *online,
                good: *good,
                interval_ms: *interval_ms,
            },
            BotEvent::Lifecycle(s) => BotEventView::Lifecycle(s@),
        }
    }
}

// ---------- the content of a message ----------

/// What a message, or a piece of one, amounts to.
pub struct Content {
    pub text: Seq<char>,
    pub at_me: bool,
    pub reply_me: bool,
}

/// A piece that is text only.
pub open spec fn plain(text: Seq<char>) -> Content {
    Content { text, at_me: false, reply_me: false }
}

/// Two pieces in their order.
pub open spec fn joined(a: Content, b: Content) -> Content {
    Content {
        text: a.text + b.text,
        at_me: a.at_me || b.at_me,
        reply_me: a.reply_me || b.reply_me,
    }
}

/// A call by `@`. One of everybody counts as one of the bot; one of somebody else is
/// kept as text; one of the bot leaves no text, so that a command stays one.
pub open spec fn at_content(qq: Seq<char>, self_id: Option<i64>) -> Content {
    if qq == "all"@ {
        Content { text: "@全体成员 "@, at_me: true, reply_me: false }
    } else if qq.len() == 0 {
        plain(Seq::<char>::empty())
    } else if self_id matches Some(s) && number::dec(s as int) == qq {
        Content { text: Seq::<char>::empty(), at_me: true, reply_me: false }
    } else {
        plain("@QQ"@ + qq + " "@)
    }
}

/// A quoted message, by the account of its author where that is known.
pub open spec fn reply_content(quoted: Option<int>, self_id: Option<i64>) -> Content {
    match quoted {
        Some(q) => if self_id matches Some(s) && s == q {
            Content { text: "[引用回复] "@, at_me: false, reply_me: true }
        } else {
            plain("[引用QQ"@ + number::dec(q) + "] "@)
        },
        None => plain("[引用] "@),
    }
}

/// The placeholder for content that both notations of a message know.
pub open spec fn common_label(t: Seq<char>) -> Option<Seq<char>> {
    if t == "image"@ {
        Some("[图片] "@)
    } else if t == "face"@ {
        Some("[表情] "@)
    } else if t == "record"@ {
        Some("[语音] "@)
    } else if t == "video"@ {
        Some("[视频] "@)
    } else if t == "file"@ {
        Some("[文件] "@)
    } else if t == "json"@ {
        Some("[卡片] "@)
    } else {
        None
    }
}

/// The placeholder for content of a segment.
pub open spec fn segment_label(t: Seq<char>) -> Option<Seq<char>> {
    match common_label(t) {
        Some(l) => Some(l),
        None => if t == "mface"@ {
            Some("[商城表情] "@)
        } else if t == "xml"@ {
            Some("[XML卡片] "@)
        } else if t == "markdown"@ {
            Some("[Markdown] "@)
        } else if t == "miniapp"@ {
            Some("[小程序] "@)
        } else if t == "onlinefile"@ {
            Some("[在线文件] "@)
        } else if t == "flashtransfer"@ {
            Some("[闪照] "@)
        } else if t == "forward"@ {
            Some("[聊天记录] "@)
        } else if t == "node"@ {
            Some("[合并转发节点] "@)
        } else if t == "music"@ {
            Some("[音乐] "@)
        } else if t == "poke"@ {
            Some("[戳一戳] "@)
        } else if t == "dice"@ {
            Some("[骰子] "@)
        } else if t == "rps"@ {
            Some("[猜拳] "@)
        } else if t == "contact"@ {
            Some("[名片] "@)
        } else if t == "location"@ {
            Some("[位置] "@)
        } else {
            None
        },
    }
}

/// One segment of a message.
pub open spec fn segment_content(seg: JsonView, self_id: Option<i64>) -> Content {
    let t = json::str_field_or(seg, "type"@, ""@);
    let data = json::field(seg, "data"@);
    if t == "text"@ {
        plain(json::str_field_or(data, "text"@, ""@))
    } else if t == "at"@ {
        at_content(json::str_field_or(data, "qq"@, ""@), self_id)
    } else if t == "reply"@ {
        reply_content(
            match json::str_of(json::field(data, "qq"@)) {
                Some(q) => number::parse_i64_of(q),
                None => None,
            },
            self_id,
        )
    } else {
        match segment_label(t) {
            Some(l) => plain(l),
            None => plain(json::str_field_or(data, "text"@, ""@)),
        }
    }
}

/// A message as a list of segments.
pub open spec fn segments_content(segs: Seq<JsonView>, self_id: Option<i64>) -> Content
    decreases segs.len(),
{
    if segs.len() == 0 {
        plain(Seq::<char>::empty())
    } else {
        joined(segments_content(segs.drop_last(), self_id), segment_content(segs.last(), self_id))
    }
}

/// What stands behind `key` in the first of the parts that begins with it.
pub open spec fn keyed_from(parts: Seq<Seq<char>>, key: Seq<char>, i: int) -> Seq<char>
    decreases parts.len() - i,
{
    if i < 0 || i >= parts.len() {
        ""@
    } else {
        match text::strip_prefix_of(parts[i], key) {
            Some(v) => v,
            None => keyed_from(parts, key, i + 1),
        }
    }
}

/// The inside of a CQ code: its type, and its parameters behind the first comma.
pub open spec fn cq_parts(inside: Seq<char>) -> (Seq<char>, Seq<char>) {
    match text::split_once_of(inside, ',') {
        Some(p) => p,
        None => (inside, ""@),
    }
}

/// One CQ code, by what stands between its brackets behind the `CQ:`.
pub open spec fn code_content(inside: Seq<char>, self_id: Option<i64>) -> Content {
    let (t, params) = cq_parts(inside);
    let qq = keyed_from(text::split_of(params, ','), "qq="@, 0);
    if t == "at"@ {
        at_content(qq, self_id)
    } else if t == "reply"@ {
        reply_content(number::parse_i64_of(qq), self_id)
    } else {
        match common_label(t) {
            Some(l) => plain(l),
            None => plain(Seq::<char>::empty()),
        }
    }
}

/// Where the first CQ code begins, and its length with the closing bracket. A code that
/// is never closed goes to the end of the text.
pub open spec fn code_at(s: Seq<char>) -> Option<(int, int)> {
    match text::find_of(s, "[CQ:"@) {
        Some(start) => match text::find_char_of(s.skip(start), ']') {
            Some(i) => Some((start, start + i)),
            None => Some((start, s.len() as int)),
        },
        None => None,
    }
}

/// What follows the closing bracket at `end`, or the end of the text.
pub open spec fn behind(s: Seq<char>, end: int) -> Seq<char> {
    if end < s.len() {
        s.skip(end + 1)
    } else {
        Seq::<char>::empty()
    }
}

pub proof fn lemma_code_at(s: Seq<char>)
    ensures
        match code_at(s) {
            Some((a, b)) => 0 <= a && a + 4 <= b <= s.len() && text::occurs_at(s, "[CQ:"@, a),
            None => true,
        },
{
    text::lemma_find(s, "[CQ:"@);
    reveal_strlit("[CQ:");
    if let Some(a) = text::find_of(s, "[CQ:"@) {
        text::lemma_char_from(s.skip(a), ']', 0);
        let pat = "[CQ:"@;
        assert(s.subrange(a, a + 4) == pat);
        assert(s[a] == pat[0]);
        assert(s[a + 1] == s.subrange(a, a + 4)[1]);
        assert(s[a + 2] == s.subrange(a, a + 4)[2]);
        assert(s[a + 3] == s.subrange(a, a + 4)[3]);
        if let Some(i) = text::find_char_of(s.skip(a), ']') {
            assert(s.skip(a)[i] == s[a + i]);
        }
    }
}

/// A message as text with CQ codes.
pub open spec fn coded_content(s: Seq<char>, self_id: Option<i64>) -> Content
    decreases s.len(),
{
    match code_at(s) {
        None => plain(s),
        Some((a, b)) => {
            proof {
                lemma_code_at(s);
            }
            joined(
                joined(plain(s.take(a)), code_content(s.subrange(a + 4, b), self_id)),
                coded_content(behind(s, b), self_id),
            )
        },
    }
}

/// The content of a message in either notation; the text is trimmed.
pub open spec fn content_of(msg: JsonView, self_id: Option<i64>) -> Content {
    let c = match msg {
        JsonView::Array(segs) => segments_content(segs, self_id),
        JsonView::Str(s) => coded_content(s, self_id),
        _ => plain(Seq::<char>::empty()),
    };
    Content { text: text::trim_of(c.text), at_me: c.at_me, reply_me: c.reply_me }
}

/// A piece of content being read.
struct Piece {
    text: String,
    at_me: bool,
    reply_me: bool,
}

impl View for Piece {
    type V = Content;

    closed spec fn view(&self) -> Content {
        Content { text: self.text@, at_me: self.at_me, reply_me: self.reply_me }
    }
}

fn plain_piece(s: &str) -> (r: Piece)
    ensures
        r@ == plain(s@),
{
    Piece { text: s.to_owned(), at_me: false, reply_me: false }
}

fn at_piece(qq: &str, self_id: Option<i64>) -> (r: Piece)
    ensures
        r@ == at_content(qq@, self_id),
{
    if text::same(qq, "all") {
        return Piece { text: "@全体成员 ".to_owned(), at_me: true, reply_me: false };
    }
    if qq.is_empty() {
        return Piece { text: String::new(), at_me: false, reply_me: false };
    }
    if let Some(s) = self_id {
        let own = number::i64_text(s);
        if text::same(own.as_str(), qq) {
            return Piece { text: String::new(), at_me: true, reply_me: false };
        }
    }
    let mut t = "@QQ".to_owned();
    t.append(qq);
    t.append(" ");
    Piece { text: t, at_me: false, reply_me: false }
}

fn reply_piece(quoted: Option<i64>, self_id: Option<i64>) -> (r: Piece)
    ensures
        r@ == reply_content(
            match quoted {
                Some(q) => Some(q as int),
                None => None,
            },
            self_id,
        ),
{
    match quoted {
        Some(q) => {
            if let Some(s) = self_id {
                if s == q {
                    return Piece { text: "[引用回复] ".to_owned(), at_me: false, reply_me: true };
                }
            }
            let mut t = "[引用QQ".to_owned();
            t.append(number::i64_text(q).as_str());
            t.append("] ");
            Piece { text: t, at_me: false, reply_me: false }
        },
        None => plain_piece("[引用] "),
    }
}

fn label_for_code(t: &str) -> (r: Option<&'static str>)
    ensures
        match r {
            Some(l) => common_label(t@) == Some(l@),
            None => common_label(t@) is None,
        },
{
    if text::same(t, "image") {
        Some("[图片] ")
    } else if text::same(t, "face") {
        Some("[表情] ")
    } else if text::same(t, "record") {
        Some("[语音] ")
    } else if text::same(t, "video") {
        Some("[视频] ")
    } else if text::same(t, "file") {
        Some("[文件] ")
    } else if text::same(t, "json") {
        Some("[卡片] ")
    } else {
        None
    }
}

fn label_for_segment(t: &str) -> (r: Option<&'static str>)
    ensures
        match r {
            Some(l) => segment_label(t@) == Some(l@),
            None => segment_label(t@) is None,
        },
{
    match label_for_code(t) {
        Some(l) => Some(l),
        None => if text::same(t, "mface") {
            Some("[商城表情] ")
        } else if text::same(t, "xml") {
            Some("[XML卡片] ")
        } else if text::same(t, "markdown") {
            Some("[Markdown] ")
        } else if text::same(t, "miniapp") {
            Some("[小程序] ")
        } else if text::same(t, "onlinefile") {
            Some("[在线文件] ")
        } else if text::same(t, "flashtransfer") {
            Some("[闪照] ")
        } else if text::same(t, "forward") {
            Some("[聊天记录] ")
        } else if text::same(t, "node") {
            Some("[合并转发节点] ")
        } else if text::same(t, "music") {
            Some("[音乐] ")
        } else if text::same(t, "poke") {
            Some("[戳一戳] ")
        } else if text::same(t, "dice") {
            Some("[骰子] ")
        } else if text::same(t, "rps") {
            Some("[猜拳] ")
        } else if text::same(t, "contact") {
            Some("[名片] ")
        } else if text::same(t, "location") {
            Some("[位置] ")
        } else {
            None
        },
    }
}

/// The text of a string member of a member, or `default`.
fn inner_str<'a>(v: &'a Json, outer: &str, key: &str, default: &'a str) -> (r: &'a str)
    ensures
        r@ == json::str_field_or(json::field(v@, outer@), key@, default@),
{
    match v.get(outer) {
        Some(d) => d.str_field_or(key, default),
        None => default,
    }
}

fn read_segment(seg: &Json, self_id: Option<i64>) -> (r: Piece)
    ensures
        r@ == segment_content(seg@, self_id),
{
    let t = seg.str_field_or("type", "");
    if text::same(t, "text") {
        plain_piece(inner_str(seg, "data", "text", ""))
    } else if text::same(t, "at") {
        at_piece(inner_str(seg, "data", "qq", ""), self_id)
    } else if text::same(t, "reply") {
        let quoted: Option<i64> = match seg.get("data") {
            Some(d) => match d.str_field("qq") {
                Some(q) => number::parse_i64(q),
                None => None,
            },
            None => None,
        };
        reply_piece(quoted, self_id)
    } else {
        match label_for_segment(t) {
            Some(l) => plain_piece(l),
            None => plain_piece(inner_str(seg, "data", "text", "")),
        }
    }
}

fn param<'a>(params: &'a Vec<String>, key: &str) -> (r: &'a str)
    ensures
        r@ == keyed_from(text::views(params@), key@, 0),
{
    let mut i: usize = 0;
    while i < params.len()
        invariant
            i <= params@.len(),
            keyed_from(text::views(params@), key@, 0) == keyed_from(
                text::views(params@),
                key@,
                i as int,
            ),
        decreases params@.len() - i,
    {
        match text::strip_prefix(params[i].as_str(), key) {
            Some(v) => {
                return v;
            },
            None => {},
        }
        i += 1;
    }
    ""
}

fn read_code(inside: &str, self_id: Option<i64>) -> (r: Piece)
    ensures
        r@ == code_content(inside@, self_id),
{
    let (t, params) = match text::split_once(inside, ',') {
        Some(p) => p,
        None => (inside, ""),
    };
    let list = text::split(params, ',');
    if text::same(t, "at") {
        at_piece(param(&list, "qq="), self_id)
    } else if text::same(t, "reply") {
        reply_piece(number::parse_i64(param(&list, "qq=")), self_id)
    } else {
        match label_for_code(t) {
            Some(l) => plain_piece(l),
            None => Piece { text: String::new(), at_me: false, reply_me: false },
        }
    }
}

impl Piece {
    fn join(&mut self, next: &Piece)
        ensures
            final(self)@ == joined(old(self)@, next@),
    {
        self.text.append(next.text.as_str());
        self.at_me = self.at_me || next.at_me;
        self.reply_me = self.reply_me || next.reply_me;
    }
}

proof fn lemma_joined_assoc(a: Content, b: Content, c: Content)
    ensures
        joined(joined(a, b), c) == joined(a, joined(b, c)),
{
    assert((a.text + b.text) + c.text =~= a.text + (b.text + c.text));
}

fn read_coded(s: &str, self_id: Option<i64>) -> (r: Piece)
    ensures
        r@ == coded_content(s@, self_id),
{
    let mut all = Piece { text: String::new(), at_me: false, reply_me: false };
    let mut rest = s;
    assert(all@.text + coded_content(s@, self_id).text =~= coded_content(s@, self_id).text);
    loop
        invariant
            joined(all@, coded_content(rest@, self_id)) == coded_content(s@, self_id),
        ensures
            joined(all@, plain(rest@)) == coded_content(s@, self_id),
        decreases rest@.len(),
    {
        let start: usize = match text::find(rest, "[CQ:") {
            Some(i) => i,
            None => {
                break;
            },
        };
        let n: usize = rest.unicode_len();
        let tail = rest.substring_char(start, n);
        assert(tail@ == rest@.skip(start as int));
        let end: usize = match text::find_char(tail, ']') {
            Some(i) => start + i,
            None => n,
        };
        proof {
            lemma_code_at(rest@);
        }
        let head = rest.substring_char(0, start);
        let code = read_code(rest.substring_char(start + 4, end), self_id);
        let next = if end < n {
            rest.substring_char(end + 1, n)
        } else {
            ""
        };
        proof {
            reveal_strlit("");
            assert(head@ == rest@.take(start as int));
            assert(next@ =~= behind(rest@, end as int));
            lemma_joined_assoc(
                all@,
                joined(plain(head@), code@),
                coded_content(next@, self_id),
            );
            lemma_joined_assoc(all@, plain(head@), code@);
        }
        all.join(&plain_piece(head));
        all.join(&code);
        rest = next;
    }
    all.join(&plain_piece(rest));
    all
}

/// The text of a message, whether the bot was called, and whether it was quoted.
pub fn extract_text(msg: &Json, self_id: Option<i64>) -> (r: (String, bool, bool))
    ensures
        (Content { text: r.0@, at_me: r.1, reply_me: r.2 }) == content_of(msg@, self_id),
{
    let all = match msg.array_len() {
        Some(n) => {
            let mut all = Piece { text: String::new(), at_me: false, reply_me: false };
            let ghost segs = msg@->Array_0;
            let mut i: usize = 0;
            assert(all@.text =~= Seq::<char>::empty());
            while i < n
                invariant
                    i <= n,
                    msg@ == JsonView::Array(segs),
                    segs.len() == n,
                    all@ == segments_content(segs.take(i as int), self_id),
                decreases n - i,
            {
                proof {
                    assert(segs.take(i + 1).drop_last() == segs.take(i as int));
                    assert(segs.take(i + 1).last() == segs[i as int]);
                }
                match msg.at(i) {
                    Some(seg) => {
                        all.join(&read_segment(seg, self_id));
                    },
                    None => {},
                }
                i += 1;
            }
            assert(segs.take(n as int) == segs);
            all
        },
        None => match msg.as_str() {
            Some(s) => read_coded(s, self_id),
            None => {
                let none = Piece { text: String::new(), at_me: false, reply_me: false };
                assert(none@.text =~= Seq::<char>::empty());
                none
            },
        },
    };
    (text::trim(all.text.as_str()).to_owned(), all.at_me, all.reply_me)
}

/// A message event: the kind is `private` or else a group's.
pub open spec fn message_of(v: JsonView, self_id: Option<i64>) -> ParsedMsgView {
    let user_id = match json::i64_of(json::field(v, "user_id"@)) {
        Some(u) => u,
        None => 0,
    };
    let content = content_of(json::field(v, "message"@), self_id);
    ParsedMsgView {
        kind: if json::str_of(json::field(v, "message_type"@)) == Some("private"@) {
            MsgKind::Private
        } else {
            MsgKind::Group
        },
        group_id: json::i64_of(json::field(v, "group_id"@)),
        user_id,
        is_self: self_id == Some(user_id),
        text: content.text,
        at_me: content.at_me,
        reply_me: content.reply_me,
        raw: v,
    }
}

/// Reads a message event.
pub fn parse_message(v: &Json, self_id: Option<i64>) -> (r: ParsedMsg)
    ensures
        r@ == message_of(v@, self_id),
        json::i64_of(json::field(v@, "user_id"@)) matches Some(u) ==> r.user_id == u,
        r.group_id == json::i64_of(json::field(v@, "group_id"@)),
        r.is_self <==> self_id == Some(r.user_id),
        r.kind == MsgKind::Private <==> json::str_of(json::field(v@, "message_type"@)) == Some("private"@),
{
    let kind = match v.str_field("message_type") {
        Some(t) => if text::same(t, "private") {
            MsgKind::Private
        } else {
            MsgKind::Group
        },
        None => MsgKind::Group,
    };
    let group_id: Option<i64> = v.i64_field("group_id");
    let user_id: i64 = match v.i64_field("user_id") {
        Some(u) => u,
        None => 0,
    };
    let msg = v.field("message");
    let (text, at_me, reply_me) = extract_text(&msg, self_id);
    let is_self = match self_id {
        Some(s) => user_id == s,
        None => false,
    };
    ParsedMsg { kind, group_id, user_id, is_self, text, at_me, reply_me, raw: v.clone() }
}

/// The text of a message event, for display.
pub fn extract_text_for_display(v: &Json) -> (r: String)
    ensures
        r@ == content_of(json::field(v@, "message"@), None).text,
{
    let (text, _, _) = extract_text(&v.field("message"), None);
    text
}

// ---------- notices and requests ----------

/// An account in words.
pub open spec fn id_text_of(id: Option<i64>) -> Seq<char> {
    match id {
        Some(i) => number::dec(i as int),
        None => "未知"@,
    }
}

fn id_text(id: Option<i64>) -> (r: String)
    ensures
        r@ == id_text_of(id),
{
    match id {
        Some(i) => number::i64_text(i),
        None => "未知".to_owned(),
    }
}

/// How a member left.
pub open spec fn decrease_kind_of(st: Seq<char>) -> Seq<char> {
    if st == "leave"@ {
        "主动退群"@
    } else if st == "kick"@ {
        "被移出群"@
    } else if st == "kick_me"@ {
        "机器人被移出群"@
    } else {
        "成员减少"@
    }
}

fn decrease_kind(st: &str) -> (r: &'static str)
    ensures
        r@ == decrease_kind_of(st@),
{
    if text::same(st, "leave") {
        "主动退群"
    } else if text::same(st, "kick") {
        "被移出群"
    } else if text::same(st, "kick_me") {
        "机器人被移出群"
    } else {
        "成员减少"
    }
}

/// A member muted or heard again; `minutes` is how long in minutes, written out.
pub open spec fn ban_desc(v: JsonView, minutes: Seq<char>) -> Seq<char> {
    let user = json::i64_of(json::field(v, "user_id"@));
    let operator = json::i64_of(json::field(v, "operator_id"@));
    match ban_seconds_of(v) {
        None => id_text_of(user) + " 被解除禁言(操作者 "@ + id_text_of(operator) + ")"@,
        Some(d) => if d == 0 {
            id_text_of(user) + " 被永久禁言(操作者 "@ + id_text_of(operator) + ")"@
        } else {
            id_text_of(user) + " 被禁言 "@ + minutes + " 分钟(操作者 "@ + id_text_of(operator) + ")"@
        },
    }
}

/// For how many seconds a notice mutes somebody; none where it lifts the ban. Zero is
/// for good.
pub open spec fn ban_seconds_of(v: JsonView) -> Option<i64> {
    if json::str_field_or(v, "sub_type"@, ""@) == "lift_ban"@ {
        None
    } else {
        match json::i64_of(json::field(v, "duration"@)) {
            Some(d) => Some(d),
            None => Some(0),
        }
    }
}

pub fn ban_seconds(v: &Json) -> (r: Option<i64>)
    ensures
        r == ban_seconds_of(v@),
{
    if text::same(v.str_field_or("sub_type", ""), "lift_ban") {
        return None;
    }
    match v.i64_field("duration") {
        Some(d) => Some(d),
        None => Some(0),
    }
}

fn ban_text(v: &Json, minutes: &str) -> (r: String)
    ensures
        r@ == ban_desc(v@, minutes@),
{
    let mut s = id_text(v.i64_field("user_id"));
    match ban_seconds(v) {
        None => {
            s.append(" 被解除禁言(操作者 ");
        },
        Some(d) => {
            if d == 0 {
                s.append(" 被永久禁言(操作者 ");
            } else {
                s.append(" 被禁言 ");
                s.append(minutes);
                s.append(" 分钟(操作者 ");
            }
        },
    }
    s.append(id_text(v.i64_field("operator_id")).as_str());
    s.append(")");
    s
}

/// A notice of the type `notify`, by its sub-type.
pub open spec fn notify_desc(v: JsonView) -> Seq<char> {
    let st = json::str_field_or(v, "sub_type"@, ""@);
    let user = json::i64_of(json::field(v, "user_id"@));
    let operator = json::i64_of(json::field(v, "operator_id"@));
    if st == "poke"@ {
        match json::i64_of(json::field(v, "target_id"@)) {
            Some(t) => id_text_of(user) + " 戳了戳 "@ + number::dec(t as int),
            None => id_text_of(user) + " 戳了戳某人"@,
        }
    } else if st == "lucky_king"@ {
        id_text_of(user) + " 成为红包运气王"@
    } else if st == "honor"@ {
        id_text_of(user) + " 获得群荣誉: "@ + json::str_field_or(v, "honor_type"@, ""@)
    } else if st == "title"@ {
        id_text_of(user) + " 获得群头衔"@
    } else if st == "essence"@ {
        id_text_of(operator) + " 添加了精华消息"@
    } else if st == "group_sign"@ {
        id_text_of(user) + " 完成群签到"@
    } else if st == "client_status"@ {
        id_text_of(user) + " 客户端状态变化"@
    } else {
        "通知[notify/"@ + st + "]: "@ + json::json_text(v)
    }
}

fn notify_text(v: &Json) -> (r: String)
    ensures
        r@ == notify_desc(v@),
{
    let st = v.str_field_or("sub_type", "");
    let user: Option<i64> = v.i64_field("user_id");
    let operator: Option<i64> = v.i64_field("operator_id");
    if text::same(st, "poke") {
        let mut s = id_text(user);
        match v.i64_field("target_id") {
            Some(t) => {
                s.append(" 戳了戳 ");
                s.append(number::i64_text(t).as_str());
            },
            None => {
                s.append(" 戳了戳某人");
            },
        }
        s
    } else if text::same(st, "lucky_king") {
        let mut s = id_text(user);
        s.append(" 成为红包运气王");
        s
    } else if text::same(st, "honor") {
        let mut s = id_text(user);
        s.append(" 获得群荣誉: ");
        s.append(v.str_field_or("honor_type", ""));
        s
    } else if text::same(st, "title") {
        let mut s = id_text(user);
        s.append(" 获得群头衔");
        s
    } else if text::same(st, "essence") {
        let mut s = id_text(operator);
        s.append(" 添加了精华消息");
        s
    } else if text::same(st, "group_sign") {
        let mut s = id_text(user);
        s.append(" 完成群签到");
        s
    } else if text::same(st, "client_status") {
        let mut s = id_text(user);
        s.append(" 客户端状态变化");
        s
    } else {
        let mut s = "通知[notify/".to_owned();
        s.append(st);
        s.append("]: ");
        s.append(v.text());
        s
    }
}

/// What a notice says, in words. A notice of an unknown type is quoted in full.
pub open spec fn notice_desc(v: JsonView, minutes: Seq<char>) -> Seq<char> {
    let t = json::str_field_or(v, "notice_type"@, "unknown"@);
    let st = json::str_field_or(v, "sub_type"@, ""@);
    let user = json::i64_of(json::field(v, "user_id"@));
    let operator = json::i64_of(json::field(v, "operator_id"@));
    let target = json::i64_of(json::field(v, "target_id"@));
    let message_id = match json::i64_of(json::field(v, "message_id"@)) {
        Some(m) => m,
        None => 0,
    };
    if t == "group_upload"@ {
        "群文件上传: "@ + id_text_of(user) + " 上传了「"@ + json::str_field_or(json::field(v, "file"@), "name"@, "文件"@) + "」"@
    } else if t == "group_admin"@ {
        id_text_of(user) + " "@ + (if st == "set"@ { "成为"@ } else { "被取消"@ }) + "管理员"@
    } else if t == "group_decrease"@ {
        id_text_of(user) + " "@ + decrease_kind_of(st) + "(操作者 "@ + id_text_of(operator) + ")"@
    } else if t == "group_increase"@ {
        id_text_of(user) + " "@ + (if st == "invite"@ { "被邀请入群"@ } else { "入群"@ }) + "(操作者 "@ + id_text_of(operator) + ")"@
    } else if t == "group_ban"@ {
        ban_desc(v, minutes)
    } else if t == "friend_add"@ {
        "新好友: "@ + id_text_of(user)
    } else if t == "group_recall"@ {
        id_text_of(user) + " 撤回了一条消息(操作者 "@ + id_text_of(operator) + ",消息ID "@ + number::dec(message_id as int) + ")"@
    } else if t == "friend_recall"@ {
        "好友 "@ + id_text_of(user) + " 撤回了一条消息(消息ID "@ + number::dec(message_id as int) + ")"@
    } else if t == "notify"@ {
        notify_desc(v)
    } else if t == "essence"@ {
        "精华消息变更(操作者 "@ + id_text_of(operator) + ")"@
    } else if t == "group_sign"@ {
        id_text_of(user) + " 完成群签到"@
    } else if t == "client_status"@ {
        "客户端状态变化: "@ + json::json_text(v)
    } else if t == "group_card"@ {
        id_text_of(user) + " 的群名片变为「"@ + json::str_field_or(v, "card_new"@, ""@) + "」"@
    } else if t == "group_title"@ {
        id_text_of(user) + " 的群头衔变为「"@ + json::str_field_or(v, "title_new"@, ""@) + "」"@
    } else if t == "group_lucky_king"@ {
        id_text_of(user) + " 成为红包运气王"@
    } else if t == "group_receipt"@ {
        "群收款事件: "@ + json::json_text(v)
    } else if t == "group_essence"@ {
        id_text_of(operator) + " 添加了精华消息"@
    } else if t == "group_poke"@ {
        id_text_of(user) + " 戳了戳 "@ + id_text_of(target)
    } else if t == "group_honor"@ {
        id_text_of(user) + " 获得群荣誉: "@ + json::str_field_or(v, "honor_type"@, ""@)
    } else {
        "通知["@ + t + "]: "@ + json::json_text(v)
    }
}

fn notice_text(v: &Json, minutes: &str) -> (r: String)
    ensures
        r@ == notice_desc(v@, minutes@),
{
    let t = v.str_field_or("notice_type", "unknown");
    let st = v.str_field_or("sub_type", "");
    let user: Option<i64> = v.i64_field("user_id");
    let operator: Option<i64> = v.i64_field("operator_id");
    let target: Option<i64> = v.i64_field("target_id");
    let message_id: i64 = match v.i64_field("message_id") {
        Some(m) => m,
        None => 0,
    };
    if text::same(t, "group_upload") {
        let mut s = "群文件上传: ".to_owned();
        s.append(id_text(user).as_str());
        s.append(" 上传了「");
        s.append(inner_str(v, "file", "name", "文件"));
        s.append("」");
        s
    } else if text::same(t, "group_admin") {
        let mut s = id_text(user);
        s.append(" ");
        s.append(if text::same(st, "set") { "成为" } else { "被取消" });
        s.append("管理员");
        s
    } else if text::same(t, "group_decrease") {
        let mut s = id_text(user);
        s.append(" ");
        s.append(decrease_kind(st));
        s.append("(操作者 ");
        s.append(id_text(operator).as_str());
        s.append(")");
        s
    } else if text::same(t, "group_increase") {
        let mut s = id_text(user);
        s.append(" ");
        s.append(if text::same(st, "invite") { "被邀请入群" } else { "入群" });
        s.append("(操作者 ");
        s.append(id_text(operator).as_str());
        s.append(")");
        s
    } else if text::same(t, "group_ban") {
        ban_text(v, minutes)
    } else if text::same(t, "friend_add") {
        let mut s = "新好友: ".to_owned();
        s.append(id_text(user).as_str());
        s
    } else if text::same(t, "group_recall") {
        let mut s = id_text(user);
        s.append(" 撤回了一条消息(操作者 ");
        s.append(id_text(operator).as_str());
        s.append(",消息ID ");
        s.append(number::i64_text(message_id).as_str());
        s.append(")");
        s
    } else if text::same(t, "friend_recall") {
        let mut s = "好友 ".to_owned();
        s.append(id_text(user).as_str());
        s.append(" 撤回了一条消息(消息ID ");
        s.append(number::i64_text(message_id).as_str());
        s.append(")");
        s
    } else if text::same(t, "notify") {
        notify_text(v)
    } else if text::same(t, "essence") {
        let mut s = "精华消息变更(操作者 ".to_owned();
        s.append(id_text(operator).as_str());
        s.append(")");
        s
    } else if text::same(t, "group_sign") {
        let mut s = id_text(user);
        s.append(" 完成群签到");
        s
    } else if text::same(t, "client_status") {
        let mut s = "客户端状态变化: ".to_owned();
        s.append(v.text());
        s
    } else if text::same(t, "group_card") {
        let mut s = id_text(user);
        s.append(" 的群名片变为「");
        s.append(v.str_field_or("card_new", ""));
        s.append("」");
        s
    } else if text::same(t, "group_title") {
        let mut s = id_text(user);
        s.append(" 的群头衔变为「");
        s.append(v.str_field_or("title_new", ""));
        s.append("」");
        s
    } else if text::same(t, "group_lucky_king") {
        let mut s = id_text(user);
        s.append(" 成为红包运气王");
        s
    } else if text::same(t, "group_receipt") {
        let mut s = "群收款事件: ".to_owned();
        s.append(v.text());
        s
    } else if text::same(t, "group_essence") {
        let mut s = id_text(operator);
        s.append(" 添加了精华消息");
        s
    } else if text::same(t, "group_poke") {
        let mut s = id_text(user);
        s.append(" 戳了戳 ");
        s.append(id_text(target).as_str());
        s
    } else if text::same(t, "group_honor") {
        let mut s = id_text(user);
        s.append(" 获得群荣誉: ");
        s.append(v.str_field_or("honor_type", ""));
        s
    } else {
        let mut s = "通知[".to_owned();
        s.append(t);
        s.append("]: ");
        s.append(v.text());
        s
    }
}

pub open spec fn notice_of(v: JsonView, minutes: Seq<char>) -> NoticeView {
    NoticeView {
        notice_type: json::str_field_or(v, "notice_type"@, "unknown"@),
        group_id: json::i64_of(json::field(v, "group_id"@)),
        user_id: json::i64_of(json::field(v, "user_id"@)),
        operator_id: json::i64_of(json::field(v, "operator_id"@)),
        desc: notice_desc(v, minutes),
        raw: v,
    }
}

/// Reads a notice. `minutes` is the length of a ban in minutes as it is to be written;
/// only a notice of one, with a length other than zero, shows it.
pub fn parse_notice(v: &Json, minutes: &str) -> (r: NoticeInfo)
    ensures
        r@ == notice_of(v@, minutes@),
{
    NoticeInfo {
        notice_type: v.str_field_or("notice_type", "unknown").to_owned(),
        group_id: v.i64_field("group_id"),
        user_id: v.i64_field("user_id"),
        operator_id: v.i64_field("operator_id"),
        desc: notice_text(v, minutes),
        raw: v.clone(),
    }
}

pub open spec fn request_of(v: JsonView) -> RequestView {
    RequestView {
        request_type: json::str_field_or(v, "request_type"@, "unknown"@),
        group_id: json::i64_of(json::field(v, "group_id"@)),
        user_id: match json::i64_of(json::field(v, "user_id"@)) {
            Some(u) => u,
            None => 0,
        },
        comment: json::str_field_or(v, "comment"@, ""@),
        flag: json::str_field_or(v, "flag"@, ""@),
        raw: v,
    }
}

/// Reads a request.
pub fn parse_request(v: &Json) -> (r: RequestInfo)
    ensures
        r@ == request_of(v@),
{
    RequestInfo {
        request_type: v.str_field_or("request_type", "unknown").to_owned(),
        group_id: v.i64_field("group_id"),
        user_id: match v.i64_field("user_id") {
            Some(u) => u,
            None => 0,
        },
        comment: v.str_field_or("comment", "").to_owned(),
        flag: v.str_field_or("flag", "").to_owned(),
        raw: v.clone(),
    }
}

// ---------- events ----------

/// The event that a document reports. Only the bot's own messages, and documents
/// without a `post_type`, report none.
pub open spec fn event_of(v: JsonView, self_id: Option<i64>, minutes: Seq<char>) -> Option<BotEventView> {
    match json::str_of(json::field(v, "post_type"@)) {
        None => None,
        Some(t) => if t == "message"@ {
            Some(BotEventView::Message(message_of(v, self_id)))
        } else if t == "message_sent"@ {
            None
        } else if t == "notice"@ {
            Some(BotEventView::Notice(notice_of(v, minutes)))
        } else if t == "request"@ {
            Some(BotEventView::Request(request_of(v)))
        } else if t == "meta_event"@ {
            let st = json::str_field_or(v, "meta_event_type"@, ""@);
            if st == "heartbeat"@ {
                let status = json::field(v, "status"@);
                Some(
                    BotEventView::Heartbeat {
                        online: json::bool_of(json::field(status, "online"@)) != Some(false),
                        good: json::bool_of(json::field(status, "good"@)) != Some(false),
                        interval_ms: match json::u64_of(json::field(v, "interval"@)) {
                            Some(n) => n,
                            None => 0,
                        },
                    },
                )
            } else {
                Some(BotEventView::Lifecycle(st))
            }
        } else {
            Some(BotEventView::Lifecycle("未知事件类型: "@ + t))
        },
    }
}

/// A flag of the member `status`, on unless it says otherwise.
fn status_flag(v: &Json, key: &str) -> (r: bool)
    ensures
        r == (json::bool_of(json::field(json::field(v@, "status"@), key@)) != Some(false)),
{
    match v.get("status") {
        Some(s) => match s.bool_field(key) {
            Some(b) => b,
            None => true,
        },
        None => true,
    }
}

/// Reads the event that a document reports.
pub fn read_event(v: &Json, self_id: Option<i64>, minutes: &str) -> (r: Option<BotEvent>)
    ensures
        match r {
            Some(e) => event_of(v@, self_id, minutes@) == Some(e@),
            None => event_of(v@, self_id, minutes@) is None,
        },
{
    let t = match v.str_field("post_type") {
        Some(t) => t,
        None => {
            return None;
        },
    };
    if text::same(t, "message") {
        Some(BotEvent::Message(parse_message(v, self_id)))
    } else if text::same(t, "message_sent") {
        None
    } else if text::same(t, "notice") {
        Some(BotEvent::Notice(parse_notice(v, minutes)))
    } else if text::same(t, "request") {
        Some(BotEvent::Request(parse_request(v)))
    } else if text::same(t, "meta_event") {
        let st = v.str_field_or("meta_event_type", "");
        if text::same(st, "heartbeat") {
            let interval_ms: u64 = match v.u64_field("interval") {
                Some(n) => n,
                None => 0,
            };
            Some(
                BotEvent::Heartbeat {
                    online: status_flag(v, "online"),
                    good: status_flag(v, "good"),
                    interval_ms,
                },
            )
        } else {
            Some(BotEvent::Lifecycle(st.to_owned()))
        }
    } else {
        let mut s = "未知事件类型: ".to_owned();
        s.append(t);
        Some(BotEvent::Lifecycle(s))
    }
}

/// Reads the event in the text of a frame. `minutes` is as in [`parse_notice`].
pub fn parse_incoming(text: &str, self_id: Option<i64>, minutes: &str) -> (r: Option<BotEvent>)
    ensures
        match json::json_parse(text@) {
            Some(v) => match r {
                Some(e) => event_of(v, self_id, minutes@) == Some(e@),
                None => event_of(v, self_id, minutes@) is None,
            },
            None => r is None,
        },
{
    match parse_json(text) {
        Some(v) => read_event(&v, self_id, minutes),
        None => None,
    }
}

// ---------- the connection ----------

/// An action to be performed by NapCat.
#[derive(Debug, Clone)]
pub struct ActionCall {
    pub action: String,
    pub params: Vec<(String, Part)>,
}

pub struct ActionCallView {
    pub action: Seq<char>,
    pub params: Seq<(Seq<char>, PartView)>,
}

impl View for ActionCall {
    type V = ActionCallView;

    open spec fn view(&self) -> ActionCallView {
        ActionCallView { action: self.action@, params: json::parts_view(self.params@) }
    }
}

/// The mark by which the reply to the `n`th action is known.
pub open spec fn echo_of(n: u64) -> Seq<char> {
    "lb_"@ + number::dec(n as int)
}

pub fn echo_name(n: u64) -> (r: String)
    ensures
        r@ == echo_of(n),
{
    let mut s = "lb_".to_owned();
    s.append(number::u64_text(n).as_str());
    s
}

/// The text that asks for an action.
pub fn call_text(call: &ActionCall, echo: &str) -> (r: String)
    ensures
        exists|v: JsonView|
            r@ == #[trigger] json::json_text(v) && json::calls_action(
                v,
                call@.action,
                call@.params,
                echo@,
            ),
{
    json::action_text(call.action.as_str(), &call.params, echo)
}

/// A message to a group.
pub open spec fn group_msg_of(group_id: i64, text: Seq<char>) -> ActionCallView {
    ActionCallView {
        action: "send_group_msg"@,
        params: seq![("group_id"@, PartView::Int(group_id)), ("message"@, PartView::Text(text))],
    }
}

/// A message to a user.
pub open spec fn private_msg_of(user_id: i64, text: Seq<char>) -> ActionCallView {
    ActionCallView {
        action: "send_private_msg"@,
        params: seq![("user_id"@, PartView::Int(user_id)), ("message"@, PartView::Text(text))],
    }
}

pub fn send_group_msg(group_id: i64, text: &str) -> (r: ActionCall)
    ensures
        r@ == group_msg_of(group_id, text@),
{
    let r = ActionCall {
        action: "send_group_msg".to_owned(),
        params: vec![
            ("group_id".to_owned(), Part::Int(group_id)),
            ("message".to_owned(), Part::Text(text.to_owned())),
        ],
    };
    assert(r@.params =~= group_msg_of(group_id, text@).params);
    r
}

pub fn send_private_msg(user_id: i64, text: &str) -> (r: ActionCall)
    ensures
        r@ == private_msg_of(user_id, text@),
{
    let r = ActionCall {
        action: "send_private_msg".to_owned(),
        params: vec![
            ("user_id".to_owned(), Part::Int(user_id)),
            ("message".to_owned(), Part::Text(text.to_owned())),
        ],
    };
    assert(r@.params =~= private_msg_of(user_id, text@).params);
    r
}

/// Asks who the bot is logged in as.
pub fn get_login_info() -> (r: ActionCall)
    ensures
        r@ == (ActionCallView {
            action: "get_login_info"@,
            params: Seq::<(Seq<char>, PartView)>::empty(),
        }),
{
    let r = ActionCall { action: "get_login_info".to_owned(), params: Vec::new() };
    assert(r@.params =~= Seq::<(Seq<char>, PartView)>::empty());
    r
}

/// How an action that was sent came out.
pub enum SendOutcome {
    /// There is no connection.
    NotConnected,
    /// The connection was lost before the reply.
    Closed,
    /// No reply came in time.
    TimedOut,
    /// The reply came.
    Replied(Result<Json, String>),
}

/// The text of a failed action.
pub open spec fn send_error_of(o: SendOutcome) -> Option<Seq<char>> {
    match o {
        SendOutcome::NotConnected => Some("未连接到 NapCat"@),
        SendOutcome::Closed => Some("连接已断开"@),
        SendOutcome::TimedOut => Some("动作超时(15s)"@),
        SendOutcome::Replied(Ok(_)) => None,
        SendOutcome::Replied(Err(e)) => Some(e@),
    }
}

/// The result of an action, failures in words.
pub fn send_result(o: SendOutcome) -> (r: Result<Json, String>)
    ensures
        match r {
            Ok(v) => o == SendOutcome::Replied(Ok(v)),
            Err(e) => send_error_of(o) == Some(e@),
        },
{
    match o {
        SendOutcome::NotConnected => Err("未连接到 NapCat".to_owned()),
        SendOutcome::Closed => Err("连接已断开".to_owned()),
        SendOutcome::TimedOut => Err("动作超时(15s)".to_owned()),
        SendOutcome::Replied(r) => r,
    }
}

/// What a frame asks of the reader.
pub enum Frame {
    /// Nothing: the frame is no document, or reports nothing.
    Ignore,
    /// The account of the bot became known.
    SelfId(i64),
    /// The reply to the action with this mark, if one is waited for.
    Reply { echo: String, result: Result<Json, String> },
    Event(BotEvent),
}

/// The reply to an action, as its frame gives it: the data, or why it failed.
pub open spec fn is_reply_in(r: Result<Json, String>, v: JsonView) -> bool {
    match r {
        Ok(d) => json::str_of(json::field(v, "status"@)) == Some("ok"@) && d@ == json::field(
            v,
            "data"@,
        ),
        Err(e) => json::str_of(json::field(v, "status"@)) != Some("ok"@) && e@
            == json::str_field_or(v, "message"@, "动作执行失败"@),
    }
}

/// What a document asks of the reader, `known` being the account stored so far.
pub open spec fn is_frame_of(f: Frame, v: JsonView, known: i64, minutes: Seq<char>) -> bool {
    match json::str_of(json::field(v, "echo"@)) {
        Some(echo) => if echo == "lb_self"@ {
            match json::i64_of(json::field(json::field(v, "data"@), "user_id"@)) {
                Some(id) => f == Frame::SelfId(id),
                None => f == Frame::Ignore,
            }
        } else {
            f matches Frame::Reply { echo: e, result } && e@ == echo && is_reply_in(result, v)
        },
        None => match event_of(v, known_id_of(known), minutes) {
            Some(e) => f matches Frame::Event(x) && x@ == e,
            None => f == Frame::Ignore,
        },
    }
}

/// The account of the bot, where one is stored.
pub open spec fn known_id_of(stored: i64) -> Option<i64> {
    if stored > 0 {
        Some(stored)
    } else {
        None
    }
}

pub fn known_id(stored: i64) -> (r: Option<i64>)
    ensures
        r == known_id_of(stored),
{
    if stored > 0 {
        Some(stored)
    } else {
        None
    }
}

/// Reads a frame.
pub fn read_frame(text: &str, known: i64, minutes: &str) -> (r: Frame)
    ensures
        match json::json_parse(text@) {
            Some(v) => is_frame_of(r, v, known, minutes@),
            None => r == Frame::Ignore,
        },
{
    let v = match parse_json(text) {
        Some(v) => v,
        None => {
            return Frame::Ignore;
        },
    };
    if let Some(echo) = v.str_field("echo") {
        if text::same(echo, "lb_self") {
            let id: Option<i64> = match v.get("data") {
                Some(d) => d.i64_field("user_id"),
                None => None,
            };
            return match id {
                Some(i) => Frame::SelfId(i),
                None => Frame::Ignore,
            };
        }
        let ok = match v.str_field("status") {
            Some(s) => text::same(s, "ok"),
            None => false,
        };
        let result: Result<Json, String> = if ok {
            Ok(v.field("data"))
        } else {
            Err(v.str_field_or("message", "动作执行失败").to_owned())
        };
        return Frame::Reply { echo: echo.to_owned(), result };
    }
    match read_event(&v, known_id(known), minutes) {
        Some(e) => Frame::Event(e),
        None => Frame::Ignore,
    }
}

/// The state of the connection, as shown to the user.
#[derive(Clone, Debug)]
pub struct ConnStatus {
    pub connected: bool,
    pub mode: String,
    pub endpoint: String,
    pub self_id: Option<i64>,
    pub last_error: String,
}

/// Where the bot connects to or listens.
pub open spec fn endpoint_of(cfg: Config) -> Seq<char> {
    if cfg.napcat.mode@ == "reverse"@ {
        "0.0.0.0:"@ + number::dec(cfg.napcat.reverse_port as int)
    } else {
        cfg.napcat.ws_url@
    }
}

/// The state before the first connection.
pub fn initial_status(cfg: &Config) -> (r: ConnStatus)
    ensures
        !r.connected,
        r.mode@ == cfg.napcat.mode@,
        r.endpoint@ == endpoint_of(*cfg),
        r.self_id is None,
        r.last_error@ == ""@,
{
    let endpoint = if text::same(cfg.napcat.mode.as_str(), "reverse") {
        let mut s = "0.0.0.0:".to_owned();
        s.append(number::u64_text(cfg.napcat.reverse_port as u64).as_str());
        s
    } else {
        cfg.napcat.ws_url.clone()
    };
    ConnStatus {
        connected: false,
        mode: cfg.napcat.mode.clone(),
        endpoint,
        self_id: None,
        last_error: "".to_owned(),
    }
}

/// The state after a change; an account that is not given is the one stored.
pub fn changed_status(
    connected: bool,
    mode: &str,
    endpoint: &str,
    self_id: Option<i64>,
    stored: i64,
    err: &str,
) -> (r: ConnStatus)
    ensures
        r.connected == connected,
        r.mode@ == mode@,
        r.endpoint@ == endpoint@,
        r.self_id == if self_id is Some {
            self_id
        } else {
            known_id_of(stored)
        },
        r.last_error@ == err@,
{
    let id: Option<i64> = match self_id {
        Some(i) => Some(i),
        None => known_id(stored),
    };
    ConnStatus {
        connected,
        mode: mode.to_owned(),
        endpoint: endpoint.to_owned(),
        self_id: id,
        last_error: err.to_owned(),
    }
}

/// The account set by hand; zero where there is none.
pub fn configured_id(cfg: &Config) -> (r: i64)
    ensures
        r == match number::parse_i64_of(text::trim_of(cfg.napcat.self_id@)) {
            Some(i) => i,
            None => 0,
        },
{
    match number::parse_i64(text::trim(cfg.napcat.self_id.as_str())) {
        Some(i) => i,
        None => 0,
    }
}

/// The address to connect to, with the access token where one is set.
pub open spec fn ws_url_of(cfg: Config) -> Seq<char> {
    let url = text::trim_of(cfg.napcat.ws_url@);
    let token = text::trim_of(cfg.napcat.access_token@);
    if token.len() == 0 {
        url
    } else if text::find_char_of(url, '?') is Some {
        url + "&access_token="@ + token
    } else {
        url + "?access_token="@ + token
    }
}

pub fn build_ws_url(cfg: &Config) -> (r: String)
    ensures
        r@ == ws_url_of(*cfg),
{
    let mut url = text::trim(cfg.napcat.ws_url.as_str()).to_owned();
    let token = text::trim(cfg.napcat.access_token.as_str());
    if !token.is_empty() {
        if text::find_char(url.as_str(), '?').is_some() {
            url.append("&access_token=");
        } else {
            url.append("?access_token=");
        }
        url.append(token);
    }
    url
}

/// Whether a peer that connects may do so; without a token everybody may.
pub fn authorized(token: &str, authorization: &str) -> (r: bool)
    ensures
        r == (token@.len() == 0 || authorization@ == "Bearer "@ + token@),
{
    if token.is_empty() {
        return true;
    }
    let mut want = "Bearer ".to_owned();
    want.append(token);
    text::same(authorization, want.as_str())
}

/// How many seconds to wait before the next attempt to connect: starting over after a
/// connection, twice as long after a failure, half a minute at most.
pub fn next_backoff(backoff: u64, connected: bool) -> (r: u64)
    ensures
        r == if connected {
            1int
        } else if 2 * backoff < 30 {
            2 * backoff
        } else {
            30
        },
        connected ==> r == 1,
        !connected ==> r <= 30 && r <= 2 * backoff + 30 && (r == 30 || r == 2 * backoff),
        !connected && 1 <= backoff <= 30 ==> r >= backoff,
{
    if connected {
        1
    } else if backoff < 15 {
        2 * backoff
    } else {
        30
    }
}

/// Whether the connection of generation `gen`, on its way out, is still the one in use.
pub fn is_current(current: Option<u64>, gen: u64) -> (r: bool)
    ensures
        r == (current == Some(gen)),
{
    match current {
        Some(g) => g == gen,
        None => false,
    }
}

// ---------- laws ----------

/// No notification is lost: a document that names its kind reports an event, unless it
/// is the echo of a message of the bot's own.
pub proof fn law_no_event_lost(v: JsonView, self_id: Option<i64>, minutes: Seq<char>)
    ensures
        event_of(v, self_id, minutes) is Some <==> {
            &&& json::str_of(json::field(v, "post_type"@)) is Some
            &&& json::str_of(json::field(v, "post_type"@)) != Some("message_sent"@)
        },
        json::str_of(json::field(v, "post_type"@)) == Some("notice"@) ==> event_of(
            v,
            self_id,
            minutes,
        ) == Some(BotEventView::Notice(notice_of(v, minutes))),
{
    reveal_strlit("message");
    reveal_strlit("message_sent");
    reveal_strlit("notice");
    assert("message"@.len() == 7 && "message_sent"@.len() == 12 && "notice"@.len() == 6);
}

/// The segment calls everybody, or the bot by its account.
pub open spec fn calls_bot(seg: JsonView, self_id: Option<i64>) -> bool {
    let qq = json::str_field_or(json::field(seg, "data"@), "qq"@, ""@);
    json::str_field_or(seg, "type"@, ""@) == "at"@ && (qq == "all"@ || (self_id matches Some(s)
        && number::dec(s as int) == qq))
}

/// The segment quotes a message of the bot.
pub open spec fn quotes_bot(seg: JsonView, self_id: Option<i64>) -> bool {
    &&& json::str_field_or(seg, "type"@, ""@) == "reply"@
    &&& json::str_of(json::field(json::field(seg, "data"@), "qq"@)) matches Some(q) && self_id
        matches Some(s) && number::parse_i64_of(q) == Some(s as int)
}

/// The bot counts as called exactly when a segment calls everybody or the bot itself,
/// and as quoted exactly when a segment quotes a message of its own. While its account
/// is not known, only a call of everybody counts.
pub proof fn law_called_by_segments(segs: Seq<JsonView>, self_id: Option<i64>)
    ensures
        content_of(JsonView::Array(segs), self_id).at_me <==> exists|i: int|
            0 <= i < segs.len() && calls_bot(#[trigger] segs[i], self_id),
        content_of(JsonView::Array(segs), self_id).reply_me <==> exists|i: int|
            0 <= i < segs.len() && quotes_bot(#[trigger] segs[i], self_id),
    decreases segs.len(),
{
    if segs.len() > 0 {
        let init = segs.drop_last();
        law_called_by_segments(init, self_id);
        lemma_segment_calls(segs.last(), self_id);
        if content_of(JsonView::Array(init), self_id).at_me {
            let i = choose|i: int| 0 <= i < init.len() && calls_bot(#[trigger] init[i], self_id);
            assert(segs[i] == init[i]);
        }
        if content_of(JsonView::Array(init), self_id).reply_me {
            let i = choose|i: int| 0 <= i < init.len() && quotes_bot(#[trigger] init[i], self_id);
            assert(segs[i] == init[i]);
        }
        assert forall|i: int| 0 <= i < segs.len() && calls_bot(#[trigger] segs[i], self_id)
            implies content_of(JsonView::Array(segs), self_id).at_me by {
            if i < init.len() {
                assert(init[i] == segs[i]);
            }
        }
        assert forall|i: int| 0 <= i < segs.len() && quotes_bot(#[trigger] segs[i], self_id)
            implies content_of(JsonView::Array(segs), self_id).reply_me by {
            if i < init.len() {
                assert(init[i] == segs[i]);
            }
        }
        assert(segs[segs.len() - 1] == segs.last());
    }
}

proof fn lemma_segment_calls(seg: JsonView, self_id: Option<i64>)
    ensures
        segment_content(seg, self_id).at_me == calls_bot(seg, self_id),
        segment_content(seg, self_id).reply_me == quotes_bot(seg, self_id),
{
    reveal_strlit("text");
    reveal_strlit("at");
    reveal_strlit("reply");
    reveal_strlit("all");
    assert("text"@.len() == 4 && "at"@.len() == 2 && "reply"@.len() == 5 && "all"@.len() == 3);
    let data = json::field(seg, "data"@);
    let qq = json::str_field_or(data, "qq"@, ""@);
    if let Some(s) = self_id {
        number::lemma_dec_nonempty(s as int);
    }
    match json::str_of(json::field(data, "qq"@)) {
        Some(q) => {
            assert(qq == q);
        },
        None => {},
    }
}

/// A message is put down to who sent it and where: its account is the member `user_id` of
/// the event, in a group as in private and whatever else the event says, its group the
/// member `group_id`, and it is private exactly where the event says so. It is the bot's
/// own exactly where that account is the bot's.
pub proof fn law_message_belongs_to_its_sender(v: JsonView, self_id: Option<i64>)
    ensures
        ({
            let m = message_of(v, self_id);
            &&& json::i64_of(json::field(v, "user_id"@)) matches Some(u) ==> m.user_id == u
            &&& json::i64_of(json::field(v, "user_id"@)) is None ==> m.user_id == 0
            &&& m.group_id == json::i64_of(json::field(v, "group_id"@))
            &&& m.kind == MsgKind::Private <==> json::str_of(json::field(v, "message_type"@)) == Some("private"@)
            &&& m.is_self <==> self_id == Some(m.user_id)
            &&& m.raw == v
            &&& m.text == content_of(json::field(v, "message"@), self_id).text
            &&& m.at_me == content_of(json::field(v, "message"@), self_id).at_me
            &&& m.reply_me == content_of(json::field(v, "message"@), self_id).reply_me
        }),
{
}

/// Messages of different senders differ in their sender.
pub proof fn law_senders_are_kept_apart(v: JsonView, w: JsonView, self_id: Option<i64>)
    requires
        json::i64_of(json::field(v, "user_id"@)) is Some,
        json::i64_of(json::field(w, "user_id"@)) is Some,
        json::i64_of(json::field(v, "user_id"@)) != json::i64_of(json::field(w, "user_id"@)),
    ensures
        message_of(v, self_id).user_id != message_of(w, self_id).user_id,
{
}

/// What a segment of text says is taken over as it is; that of a call or a quotation of
/// somebody else names the account; and content of another kind leaves a mark, never the
/// inside of a picture or a card.
pub proof fn law_text_is_taken_over(seg: JsonView, self_id: Option<i64>, t: Seq<char>)
    ensures
        json::str_of(json::field(seg, "type"@)) == Some("text"@) && json::str_of(
            json::field(json::field(seg, "data"@), "text"@),
        ) == Some(t) ==> segment_content(seg, self_id) == plain(t),
        plain(t).text == t && !plain(t).at_me && !plain(t).reply_me,
        forall|qq: Seq<char>|
            qq.len() > 0 && qq != "all"@ && (self_id matches Some(s) ==> number::dec(s as int) != qq) ==> (
            #[trigger] at_content(qq, self_id)).text == "@QQ"@ + qq + " "@,
        self_id matches Some(s) ==> at_content(number::dec(s as int), self_id).at_me,
        at_content("all"@, self_id).at_me,
        forall|q: int|
            (self_id matches Some(s) ==> s != q) ==> (#[trigger] reply_content(Some(q), self_id)).text == "[引用QQ"@
                + number::dec(q) + "] "@,
{
    reveal_strlit("all");
    if let Some(s) = self_id {
        number::law_dec_reads_back(s);
        number::lemma_dec_nonempty(s as int);
        if number::dec(s as int) == "all"@ {
            assert(!number::is_digit("all"@[0]) && "all"@[0] != '-' && "all"@[0] != '+');
        }
    }
}

/// The text of a message is that of its segments one after the other, none left out,
/// without white space around the whole.
pub proof fn law_segments_are_read_in_order(segs: Seq<JsonView>, self_id: Option<i64>)
    ensures
        content_of(JsonView::Array(segs), self_id).text == text::trim_of(
            text::join_of(
                Seq::new(segs.len(), |i: int| segment_content(segs[i], self_id).text),
                Seq::<char>::empty(),
            ),
        ),
{
    lemma_segments_text(segs, self_id);
}

proof fn lemma_segments_text(segs: Seq<JsonView>, self_id: Option<i64>)
    ensures
        segments_content(segs, self_id).text == text::join_of(
            Seq::new(segs.len(), |i: int| segment_content(segs[i], self_id).text),
            Seq::<char>::empty(),
        ),
    decreases segs.len(),
{
    let texts = Seq::new(segs.len(), |i: int| segment_content(segs[i], self_id).text);
    if segs.len() > 0 {
        let some = segs.drop_last();
        lemma_segments_text(some, self_id);
        assert(texts.drop_last() =~= Seq::new(some.len(), |i: int| segment_content(some[i], self_id).text));
        assert(texts.last() == segment_content(segs.last(), self_id).text);
        if segs.len() == 1 {
            assert(segments_content(segs, self_id).text =~= texts[0]);
        } else {
            assert(segments_content(segs, self_id).text =~= text::join_of(
                texts.drop_last(),
                Seq::<char>::empty(),
            ) + Seq::<char>::empty() + texts.last());
        }
    } else {
        assert(segments_content(segs, self_id).text =~= text::join_of(texts, Seq::<char>::empty()));
    }
}

/// A message written with codes: without one it is read as it stands, and a code leaves
/// what stands before and behind it as it is.
pub proof fn law_codes_leave_the_rest(before: Seq<char>, inside: Seq<char>, rest: Seq<char>, self_id: Option<i64>)
    requires
        !text::includes(before + "[CQ:"@.take(3), "[CQ:"@),
        forall|i: int| 0 <= i < inside.len() ==> #[trigger] inside[i] != ']',
    ensures
        !text::includes(before, "[CQ:"@) ==> coded_content(before, self_id) == plain(before),
        ({
            let s = before + "[CQ:"@ + inside + seq![']'] + rest;
            coded_content(s, self_id).text == before + code_content(inside, self_id).text + coded_content(
                rest,
                self_id,
            ).text
        }),
{
    reveal_strlit("[CQ:");
    let code = "[CQ:"@;
    text::lemma_find(before, code);
    let s = before + code + inside + seq![']'] + rest;
    let a = before.len() as int;
    assert(s.subrange(a, a + 4) =~= code);
    assert(text::occurs_at(s, code, a));
    text::lemma_find(s, code);
    let f = text::find_of(s, code)->0;
    assert(f == a) by {
        if f < a {
            let short = before + code.take(3);
            assert(short.subrange(f, f + 4) =~= s.subrange(f, f + 4));
            assert(text::occurs_at(short, code, f));
        }
    }
    let tail = s.skip(a);
    assert(tail =~= code + inside + seq![']'] + rest);
    text::lemma_char_from(tail, ']', 0);
    let end = 4 + inside.len() as int;
    assert(tail[end] == ']');
    let j = text::find_char_of(tail, ']')->0;
    assert(j == end) by {
        if j < end {
            if j < 4 {
                assert(tail[j] == code[j]);
            } else {
                assert(tail[j] == inside[j - 4]);
            }
        }
    }
    assert(s.take(a) =~= before);
    assert(s.subrange(a + 4, a + end) =~= inside);
    assert(behind(s, a + end) =~= rest);
    assert(coded_content(s, self_id).text =~= before + code_content(inside, self_id).text + coded_content(
        rest,
        self_id,
    ).text);
}

/// A code of a call or a quotation is about the account that it names.
pub proof fn law_codes_name_accounts(qq: Seq<char>, self_id: Option<i64>)
    requires
        forall|i: int| 0 <= i < qq.len() ==> #[trigger] qq[i] != ',',
    ensures
        code_content("at"@ + seq![','] + "qq="@ + qq, self_id) == at_content(qq, self_id),
{
    reveal_strlit("at");
    reveal_strlit("qq=");
    reveal_strlit("reply");
    let inside = "at"@ + seq![','] + "qq="@ + qq;
    let params = "qq="@ + qq;
    text::lemma_char_from(inside, ',', 0);
    assert(inside[2] == ',');
    let i = text::find_char_of(inside, ',')->0;
    assert(i == 2) by {
        if i < 2 {
            assert(inside[i] == "at"@[i]);
        }
    }
    assert(inside.take(2) =~= "at"@);
    assert(inside.skip(3) =~= params);
    assert forall|k: int| 0 <= k < params.len() implies #[trigger] params[k] != ',' by {
        if k >= 3 {
            assert(params[k] == qq[k - 3]);
        } else {
            assert(params[k] == "qq="@[k]);
        }
    }
    lemma_no_comma(params);
    assert(params.take(3) =~= "qq="@);
    assert(params.skip(3) =~= qq);
}

proof fn lemma_no_comma(s: Seq<char>)
    requires
        forall|i: int| 0 <= i < s.len() ==> #[trigger] s[i] != ',',
    ensures
        text::split_of(s, ',') == seq![s],
    decreases s.len(),
{
    if s.len() == 0 {
        assert(s =~= Seq::<char>::empty());
    } else {
        let init = s.drop_last();
        lemma_no_comma(init);
        assert(init.push(s.last()) =~= s);
        assert(seq![init].update(0, s) =~= seq![s]);
    }
}

/// A notice is about whom it names: its type, group, account and who did it are the
/// members of those names, and the words on it tell of that account.
pub proof fn law_notice_is_about_whom_it_names(v: JsonView, minutes: Seq<char>)
    ensures
        ({
            let n = notice_of(v, minutes);
            &&& json::str_of(json::field(v, "notice_type"@)) matches Some(t) ==> n.notice_type == t
            &&& n.group_id == json::i64_of(json::field(v, "group_id"@))
            &&& n.user_id == json::i64_of(json::field(v, "user_id"@))
            &&& n.operator_id == json::i64_of(json::field(v, "operator_id"@))
            &&& n.raw == v
            &&& n.desc == notice_desc(v, minutes)
        }),
        forall|u: i64| #[trigger] id_text_of(Some(u)) == number::dec(u as int),
{
}

/// A ban lasts as long as its notice says; none is lifted but by a notice that says so,
/// and the words tell who was silenced by whom.
pub proof fn law_ban_notice_tells_the_ban(v: JsonView, minutes: Seq<char>, user: i64, operator: i64)
    requires
        json::i64_of(json::field(v, "user_id"@)) == Some(user),
        json::i64_of(json::field(v, "operator_id"@)) == Some(operator),
    ensures
        ban_seconds_of(v) is None <==> json::str_of(json::field(v, "sub_type"@)) == Some("lift_ban"@),
        ban_seconds_of(v) matches Some(d) ==> (json::i64_of(json::field(v, "duration"@)) matches Some(x) ==> d == x),
        text::begins(ban_desc(v, minutes), number::dec(user as int) + " 被"@),
        text::ends(ban_desc(v, minutes), "(操作者 "@ + number::dec(operator as int) + ")"@),
        ban_seconds_of(v) matches Some(d) ==> (d != 0 ==> text::begins(
            ban_desc(v, minutes),
            number::dec(user as int) + " 被禁言 "@ + minutes + " 分钟"@,
        )),
        ban_seconds_of(v) is None ==> text::begins(ban_desc(v, minutes), number::dec(user as int) + " 被解除禁言"@),
{
    reveal_strlit("");
    reveal_strlit("lift_ban");
    reveal_strlit(" 被");
    reveal_strlit(" 被解除禁言");
    reveal_strlit(" 被解除禁言(操作者 ");
    reveal_strlit(" 被永久禁言(操作者 ");
    reveal_strlit(" 被禁言 ");
    reveal_strlit(" 分钟");
    reveal_strlit(" 分钟(操作者 ");
    reveal_strlit("(操作者 ");
    let d = ban_desc(v, minutes);
    let u = number::dec(user as int);
    let head = u + " 被"@;
    let tail = "(操作者 "@ + number::dec(operator as int) + ")"@;
    assert(""@.len() == 0 && "lift_ban"@.len() == 8);
    assert(d.take(head.len() as int) =~= head);
    assert(d.skip(d.len() - tail.len()) =~= tail);
    match ban_seconds_of(v) {
        Some(x) => if x != 0 {
            let more = u + " 被禁言 "@ + minutes + " 分钟"@;
            assert(d.take(more.len() as int) =~= more);
        },
        None => {
            let more = u + " 被解除禁言"@;
            assert(d.take(more.len() as int) =~= more);
        },
    }
}

/// A request is as it came: who asks, for which group, with which words, and the mark by
/// which it is answered.
pub proof fn law_request_is_as_it_came(v: JsonView)
    ensures
        ({
            let r = request_of(v);
            &&& json::str_of(json::field(v, "request_type"@)) matches Some(t) ==> r.request_type == t
            &&& r.group_id == json::i64_of(json::field(v, "group_id"@))
            &&& json::i64_of(json::field(v, "user_id"@)) matches Some(u) ==> r.user_id == u
            &&& json::str_of(json::field(v, "comment"@)) matches Some(t) ==> r.comment == t
            &&& json::str_of(json::field(v, "flag"@)) matches Some(t) ==> r.flag == t
            &&& r.raw == v
        }),
{
}

/// A document reports what it says it is: a message, a request or a sign of life; and a
/// sign of life carries the state of the account, bad only where the document says so.
pub proof fn law_events_are_what_they_say(v: JsonView, self_id: Option<i64>, minutes: Seq<char>)
    ensures
        json::str_of(json::field(v, "post_type"@)) == Some("message"@) ==> event_of(v, self_id, minutes) == Some(
            BotEventView::Message(message_of(v, self_id)),
        ),
        json::str_of(json::field(v, "post_type"@)) == Some("request"@) ==> event_of(v, self_id, minutes) == Some(
            BotEventView::Request(request_of(v)),
        ),
        json::str_of(json::field(v, "post_type"@)) == Some("meta_event"@) && json::str_of(
            json::field(v, "meta_event_type"@),
        ) == Some("heartbeat"@) ==> match event_of(v, self_id, minutes) {
            Some(BotEventView::Heartbeat { online, good, interval_ms }) => {
                let status = json::field(v, "status"@);
                &&& online <==> json::bool_of(json::field(status, "online"@)) != Some(false)
                &&& good <==> json::bool_of(json::field(status, "good"@)) != Some(false)
                &&& json::u64_of(json::field(v, "interval"@)) matches Some(n) ==> interval_ms == n
                &&& json::u64_of(json::field(v, "interval"@)) is None ==> interval_ms == 0
            },
            _ => false,
        },
{
    reveal_strlit("message");
    reveal_strlit("message_sent");
    reveal_strlit("notice");
    reveal_strlit("request");
    reveal_strlit("meta_event");
    assert("message"@.len() == 7 && "message"@[0] == 'm');
    assert("message_sent"@.len() == 12);
    assert("notice"@.len() == 6);
    assert("request"@.len() == 7 && "request"@[0] == 'r');
    assert("meta_event"@.len() == 10);
}

/// A message goes to the group or the person named, with the words given.
pub proof fn law_messages_are_addressed(id: i64, words: Seq<char>)
    ensures
        group_msg_of(id, words).action == "send_group_msg"@,
        group_msg_of(id, words).params.contains(("group_id"@, PartView::Int(id))),
        group_msg_of(id, words).params.contains(("message"@, PartView::Text(words))),
        group_msg_of(id, words).params.len() == 2,
        private_msg_of(id, words).action == "send_private_msg"@,
        private_msg_of(id, words).params.contains(("user_id"@, PartView::Int(id))),
        private_msg_of(id, words).params.contains(("message"@, PartView::Text(words))),
        private_msg_of(id, words).params.len() == 2,
{
    assert(group_msg_of(id, words).params[0] == ("group_id"@, PartView::Int(id)));
    assert(group_msg_of(id, words).params[1] == ("message"@, PartView::Text(words)));
    assert(private_msg_of(id, words).params[0] == ("user_id"@, PartView::Int(id)));
    assert(private_msg_of(id, words).params[1] == ("message"@, PartView::Text(words)));
}

/// Actions are told apart by their marks, and none has the mark of the question for the
/// bot's own account.
pub proof fn law_marks_differ(a: u64, b: u64)
    ensures
        a != b ==> echo_of(a) != echo_of(b),
        text::begins(echo_of(a), "lb_"@),
{
    let x = echo_of(a);
    let y = echo_of(b);
    assert(x.skip("lb_"@.len() as int) =~= number::dec(a as int));
    assert(y.skip("lb_"@.len() as int) =~= number::dec(b as int));
    assert(x.take("lb_"@.len() as int) =~= "lb_"@);
    if x == y {
        number::lemma_dec_same(a as nat, b as nat);
    }
}

/// A frame that answers an action is handed to who waits for that very mark, with the
/// data of a success and the words of a failure; a success is one that says so.
pub proof fn law_replies_reach_who_waits(f: Frame, v: JsonView, known: i64, minutes: Seq<char>, echo: Seq<char>)
    requires
        is_frame_of(f, v, known, minutes),
        json::str_of(json::field(v, "echo"@)) == Some(echo),
        echo != "lb_self"@,
    ensures
        match f {
            Frame::Reply { echo: e, result } => {
                &&& e@ == echo
                &&& result is Ok <==> json::str_of(json::field(v, "status"@)) == Some("ok"@)
                &&& result matches Ok(d) ==> d@ == json::field(v, "data"@)
                &&& result matches Err(w) ==> (json::str_of(json::field(v, "message"@)) matches Some(t) ==> w@ == t)
            },
            _ => false,
        },
{
}

/// The bot's account is the one that was answered, and only a positive one is known.
pub proof fn law_own_account_is_the_one_answered(f: Frame, v: JsonView, known: i64, minutes: Seq<char>, id: i64)
    requires
        is_frame_of(f, v, known, minutes),
        json::str_of(json::field(v, "echo"@)) == Some("lb_self"@),
        json::i64_of(json::field(json::field(v, "data"@), "user_id"@)) == Some(id),
    ensures
        f == Frame::SelfId(id),
        known_id_of(known) is Some <==> known > 0,
        known_id_of(known) matches Some(k) ==> k == known,
{
}

/// The address holds the one of the settings and, where one is set, the access token; it
/// stays as it is where none is.
pub proof fn law_address_has_the_token(cfg: Config)
    ensures
        text::begins(ws_url_of(cfg), text::trim_of(cfg.napcat.ws_url@)),
        text::trim_of(cfg.napcat.access_token@).len() == 0 ==> ws_url_of(cfg) == text::trim_of(cfg.napcat.ws_url@),
        text::trim_of(cfg.napcat.access_token@).len() > 0 ==> text::ends(
            ws_url_of(cfg),
            "access_token="@ + text::trim_of(cfg.napcat.access_token@),
        ),
        cfg.napcat.mode@ == "reverse"@ ==> text::ends(
            endpoint_of(cfg),
            ":"@ + number::dec(cfg.napcat.reverse_port as int),
        ),
        cfg.napcat.mode@ != "reverse"@ ==> endpoint_of(cfg) == cfg.napcat.ws_url@,
{
    reveal_strlit("&access_token=");
    reveal_strlit("?access_token=");
    reveal_strlit("access_token=");
    reveal_strlit(":");
    reveal_strlit("0.0.0.0:");
    let u = ws_url_of(cfg);
    let url = text::trim_of(cfg.napcat.ws_url@);
    assert(u.take(url.len() as int) =~= url);
    let tail = "access_token="@ + text::trim_of(cfg.napcat.access_token@);
    if text::trim_of(cfg.napcat.access_token@).len() > 0 {
        assert(u.skip(u.len() - tail.len()) =~= tail);
    }
    if cfg.napcat.mode@ == "reverse"@ {
        let e = endpoint_of(cfg);
        let port = ":"@ + number::dec(cfg.napcat.reverse_port as int);
        assert(e.skip(e.len() - port.len()) =~= port);
    }
}

/// A failure to send is told by its cause, and only an answer is a result.
pub proof fn law_causes_are_told_apart(o: SendOutcome)
    ensures
        send_error_of(o) is None <==> o matches SendOutcome::Replied(Ok(_)),
        o matches SendOutcome::Replied(Err(e)) ==> send_error_of(o) == Some(e@),
        o is NotConnected ==> send_error_of(o) == Some("未连接到 NapCat"@),
        o is Closed ==> send_error_of(o) == Some("连接已断开"@),
        o is TimedOut ==> send_error_of(o) == Some("动作超时(15s)"@),
{
}

/// The types of notices have different names.
proof fn lemma_notice_types()
    ensures
        "group_upload"@.len() == 12 && "group_upload"@[0] == 'g' && "group_upload"@[6] == 'u',
        "group_admin"@.len() == 11 && "group_admin"@[0] == 'g' && "group_admin"@[6] == 'a',
        "group_decrease"@.len() == 14 && "group_decrease"@[0] == 'g' && "group_decrease"@[6] == 'd',
        "group_increase"@.len() == 14 && "group_increase"@[0] == 'g' && "group_increase"@[6] == 'i',
        "group_ban"@.len() == 9 && "group_ban"@[0] == 'g' && "group_ban"@[6] == 'b',
        "friend_add"@.len() == 10 && "friend_add"@[0] == 'f' && "friend_add"@[6] == '_',
        "group_recall"@.len() == 12 && "group_recall"@[0] == 'g' && "group_recall"@[6] == 'r',
        "friend_recall"@.len() == 13 && "friend_recall"@[0] == 'f' && "friend_recall"@[6] == '_',
        "notify"@.len() == 6 && "notify"@[0] == 'n',
        "essence"@.len() == 7 && "essence"@[0] == 'e' && "essence"@[6] == 'e',
        "group_sign"@.len() == 10 && "group_sign"@[0] == 'g' && "group_sign"@[6] == 's',
        "client_status"@.len() == 13 && "client_status"@[0] == 'c' && "client_status"@[6] == '_',
        "group_card"@.len() == 10 && "group_card"@[0] == 'g' && "group_card"@[6] == 'c',
        "group_title"@.len() == 11 && "group_title"@[0] == 'g' && "group_title"@[6] == 't',
        "group_lucky_king"@.len() == 16 && "group_lucky_king"@[0] == 'g' && "group_lucky_king"@[6] == 'l',
        "group_receipt"@.len() == 13 && "group_receipt"@[0] == 'g' && "group_receipt"@[6] == 'r',
        "group_essence"@.len() == 13 && "group_essence"@[0] == 'g' && "group_essence"@[6] == 'e',
        "group_poke"@.len() == 10 && "group_poke"@[0] == 'g' && "group_poke"@[6] == 'p',
        "group_honor"@.len() == 11 && "group_honor"@[0] == 'g' && "group_honor"@[6] == 'h',
{
    reveal_strlit("group_upload");
    reveal_strlit("group_admin");
    reveal_strlit("group_decrease");
    reveal_strlit("group_increase");
    reveal_strlit("group_ban");
    reveal_strlit("friend_add");
    reveal_strlit("group_recall");
    reveal_strlit("friend_recall");
    reveal_strlit("notify");
    reveal_strlit("essence");
    reveal_strlit("group_sign");
    reveal_strlit("client_status");
    reveal_strlit("group_card");
    reveal_strlit("group_title");
    reveal_strlit("group_lucky_king");
    reveal_strlit("group_receipt");
    reveal_strlit("group_essence");
    reveal_strlit("group_poke");
    reveal_strlit("group_honor");
}

/// The sub-types of a notice have different names.
proof fn lemma_notice_sub_types()
    ensures
        "poke"@.len() == 4 && "poke"@[0] == 'p',
        "lucky_king"@.len() == 10 && "lucky_king"@[0] == 'l',
        "honor"@.len() == 5 && "honor"@[0] == 'h',
        "title"@.len() == 5 && "title"@[0] == 't',
        "essence"@.len() == 7 && "essence"@[0] == 'e',
        "group_sign"@.len() == 10 && "group_sign"@[0] == 'g',
        "client_status"@.len() == 13 && "client_status"@[0] == 'c',
{
    reveal_strlit("poke");
    reveal_strlit("lucky_king");
    reveal_strlit("honor");
    reveal_strlit("title");
    reveal_strlit("essence");
    reveal_strlit("group_sign");
    reveal_strlit("client_status");
}

/// What a notice says of a member begins with that member, and names who brought it about,
/// never the one for the other.
pub proof fn law_notice_names_the_right_accounts(
    v: JsonView,
    minutes: Seq<char>,
    t: Seq<char>,
    user: i64,
    operator: i64,
)
    requires
        json::str_of(json::field(v, "notice_type"@)) == Some(t),
        json::i64_of(json::field(v, "user_id"@)) == Some(user),
        json::i64_of(json::field(v, "operator_id"@)) == Some(operator),
    ensures
        ({
            let d = notice_desc(v, minutes);
            let u = number::dec(user as int);
            let o = number::dec(operator as int);
            &&& t == "group_admin"@ || t == "group_decrease"@ || t == "group_increase"@ || t == "group_recall"@ || t
                == "group_sign"@ || t == "group_card"@ || t == "group_title"@ || t == "group_lucky_king"@ || t
                == "group_poke"@ || t == "group_honor"@ ==> text::begins(d, u + " "@)
            &&& t == "group_decrease"@ || t == "group_increase"@ ==> text::ends(d, "(操作者 "@ + o + ")"@)
            &&& t == "group_essence"@ ==> text::begins(d, o + " "@)
            &&& t == "essence"@ ==> text::ends(d, o + ")"@)
            &&& t == "friend_add"@ ==> text::ends(d, u)
            &&& t == "friend_recall"@ ==> text::begins(d, "好友 "@ + u)
            &&& t == "group_upload"@ ==> text::begins(d, "群文件上传: "@ + u)
        }),
{
    lemma_notice_types();
    reveal_strlit(" ");
    reveal_strlit(" 撤回了一条消息(操作者 ");
    reveal_strlit(" 完成群签到");
    reveal_strlit(" 的群名片变为「");
    reveal_strlit(" 的群头衔变为「");
    reveal_strlit(" 成为红包运气王");
    reveal_strlit(" 戳了戳 ");
    reveal_strlit(" 获得群荣誉: ");
    reveal_strlit(" 添加了精华消息");
    let d = notice_desc(v, minutes);
    let u = number::dec(user as int);
    let o = number::dec(operator as int);
    let us = u + " "@;
    let os = o + " "@;
    if t == "group_admin"@ || t == "group_decrease"@ || t == "group_increase"@ || t == "group_recall"@ || t
        == "group_sign"@ || t == "group_card"@ || t == "group_title"@ || t == "group_lucky_king"@ || t == "group_poke"@
        || t == "group_honor"@ {
        assert(d.take(us.len() as int) =~= us);
    }
    if t == "group_decrease"@ || t == "group_increase"@ {
        let e = "(操作者 "@ + o + ")"@;
        assert(d.skip(d.len() - e.len()) =~= e);
    }
    if t == "group_essence"@ {
        assert(d.take(os.len() as int) =~= os);
    }
    if t == "essence"@ {
        let e = o + ")"@;
        assert(d.skip(d.len() - e.len()) =~= e);
    }
    if t == "friend_add"@ {
        assert(d.skip(d.len() - u.len()) =~= u);
    }
    if t == "friend_recall"@ {
        let h = "好友 "@ + u;
        assert(d.take(h.len() as int) =~= h);
    }
    if t == "group_upload"@ {
        let h = "群文件上传: "@ + u;
        assert(d.take(h.len() as int) =~= h);
    }
}

/// What a notice tells besides the accounts is what it holds: the file, the message, the
/// new card or title, whom somebody poked, and which way a change went.
pub proof fn law_notice_tells_what_it_holds(v: JsonView, minutes: Seq<char>, t: Seq<char>, st: Seq<char>)
    requires
        json::str_of(json::field(v, "notice_type"@)) == Some(t),
        json::str_of(json::field(v, "sub_type"@)) == Some(st),
    ensures
        ({
            let d = notice_desc(v, minutes);
            &&& t == "group_upload"@ ==> (json::str_of(json::field(json::field(v, "file"@), "name"@)) matches Some(f)
                ==> text::ends(d, "「"@ + f + "」"@))
            &&& t == "group_admin"@ && st == "set"@ ==> text::ends(d, "成为管理员"@)
            &&& t == "group_admin"@ && st != "set"@ ==> text::ends(d, "被取消管理员"@)
            &&& t == "group_recall"@ || t == "friend_recall"@ ==> (json::i64_of(
                json::field(v, "message_id"@),
            ) matches Some(m) ==> text::ends(d, "消息ID "@ + number::dec(m as int) + ")"@))
            &&& t == "group_card"@ ==> (json::str_of(json::field(v, "card_new"@)) matches Some(c) ==> text::ends(
                d,
                "「"@ + c + "」"@,
            ))
            &&& t == "group_title"@ ==> (json::str_of(json::field(v, "title_new"@)) matches Some(c) ==> text::ends(
                d,
                "「"@ + c + "」"@,
            ))
            &&& t == "group_poke"@ ==> (json::i64_of(json::field(v, "target_id"@)) matches Some(x) ==> text::ends(
                d,
                number::dec(x as int),
            ))
            &&& t == "group_honor"@ ==> (json::str_of(json::field(v, "honor_type"@)) matches Some(h) ==> text::ends(
                d,
                h,
            ))
            &&& t == "group_ban"@ ==> d == ban_desc(v, minutes)
            &&& t == "notify"@ ==> d == notify_desc(v)
        }),
{
    lemma_notice_types();
    reveal_strlit("成为管理员");
    reveal_strlit("被取消管理员");
    reveal_strlit("成为");
    reveal_strlit("被取消");
    reveal_strlit("管理员");
    reveal_strlit("「");
    reveal_strlit(" 上传了「");
    reveal_strlit(" 的群名片变为「");
    reveal_strlit(" 的群头衔变为「");
    reveal_strlit("消息ID ");
    reveal_strlit(",消息ID ");
    reveal_strlit(" 撤回了一条消息(消息ID ");
    let d = notice_desc(v, minutes);
    if t == "group_upload"@ {
        if let Some(f) = json::str_of(json::field(json::field(v, "file"@), "name"@)) {
            let e = "「"@ + f + "」"@;
            assert(d.skip(d.len() - e.len()) =~= e);
        }
    } else if t == "group_admin"@ {
        let e = if st == "set"@ {
            "成为管理员"@
        } else {
            "被取消管理员"@
        };
        assert(d.skip(d.len() - e.len()) =~= e);
    } else if t == "group_recall"@ || t == "friend_recall"@ {
        if let Some(m) = json::i64_of(json::field(v, "message_id"@)) {
            let e = "消息ID "@ + number::dec(m as int) + ")"@;
            assert(d.skip(d.len() - e.len()) =~= e);
        }
    } else if t == "group_card"@ {
        if let Some(c) = json::str_of(json::field(v, "card_new"@)) {
            let e = "「"@ + c + "」"@;
            assert(d.skip(d.len() - e.len()) =~= e);
        }
    } else if t == "group_title"@ {
        if let Some(c) = json::str_of(json::field(v, "title_new"@)) {
            let e = "「"@ + c + "」"@;
            assert(d.skip(d.len() - e.len()) =~= e);
        }
    } else if t == "group_poke"@ {
        if let Some(x) = json::i64_of(json::field(v, "target_id"@)) {
            let e = number::dec(x as int);
            assert(d.skip(d.len() - e.len()) =~= e);
        }
    } else if t == "group_honor"@ {
        if let Some(h) = json::str_of(json::field(v, "honor_type"@)) {
            assert(d.skip(d.len() - h.len()) =~= h);
        }
    }
}

/// A further notice tells who did something, and to whom.
pub proof fn law_further_notice_names_its_accounts(v: JsonView, st: Seq<char>, user: i64, operator: i64)
    requires
        json::str_of(json::field(v, "sub_type"@)) == Some(st),
        json::i64_of(json::field(v, "user_id"@)) == Some(user),
        json::i64_of(json::field(v, "operator_id"@)) == Some(operator),
    ensures
        ({
            let d = notify_desc(v);
            let u = number::dec(user as int);
            let o = number::dec(operator as int);
            &&& st == "poke"@ || st == "lucky_king"@ || st == "honor"@ || st == "title"@ || st == "group_sign"@ || st
                == "client_status"@ ==> text::begins(d, u + " "@)
            &&& st == "essence"@ ==> text::begins(d, o + " "@)
            &&& st == "poke"@ ==> (json::i64_of(json::field(v, "target_id"@)) matches Some(x) ==> text::ends(
                d,
                " 戳了戳 "@ + number::dec(x as int),
            ))
            &&& st == "honor"@ ==> (json::str_of(json::field(v, "honor_type"@)) matches Some(h) ==> text::ends(d, h))
        }),
{
    lemma_notice_sub_types();
    reveal_strlit(" ");
    reveal_strlit(" 戳了戳 ");
    reveal_strlit(" 戳了戳某人");
    reveal_strlit(" 成为红包运气王");
    reveal_strlit(" 获得群荣誉: ");
    reveal_strlit(" 获得群头衔");
    reveal_strlit(" 添加了精华消息");
    reveal_strlit(" 完成群签到");
    reveal_strlit(" 客户端状态变化");
    let d = notify_desc(v);
    let us = number::dec(user as int) + " "@;
    let os = number::dec(operator as int) + " "@;
    if st == "essence"@ {
        assert(d.take(os.len() as int) =~= os);
    } else if st == "poke"@ || st == "lucky_king"@ || st == "honor"@ || st == "title"@ || st == "group_sign"@ || st
        == "client_status"@ {
        assert(d.take(us.len() as int) =~= us);
    }
    if st == "poke"@ {
        if let Some(x) = json::i64_of(json::field(v, "target_id"@)) {
            let e = " 戳了戳 "@ + number::dec(x as int);
            assert(d.skip(d.len() - e.len()) =~= e);
        }
    }
    if st == "honor"@ {
        if let Some(h) = json::str_of(json::field(v, "honor_type"@)) {
            assert(d.skip(d.len() - h.len()) =~= h);
        }
    }
}

/// Every kind of content that is not text has a placeholder of its own.
pub proof fn law_contents_have_placeholders()
    ensures
        segment_label("image"@) == Some("[图片] "@),
        segment_label("face"@) == Some("[表情] "@),
        segment_label("record"@) == Some("[语音] "@),
        segment_label("video"@) == Some("[视频] "@),
        segment_label("file"@) == Some("[文件] "@),
        segment_label("json"@) == Some("[卡片] "@),
        segment_label("mface"@) == Some("[商城表情] "@),
        segment_label("xml"@) == Some("[XML卡片] "@),
        segment_label("markdown"@) == Some("[Markdown] "@),
        segment_label("miniapp"@) == Some("[小程序] "@),
        segment_label("onlinefile"@) == Some("[在线文件] "@),
        segment_label("flashtransfer"@) == Some("[闪照] "@),
        segment_label("forward"@) == Some("[聊天记录] "@),
        segment_label("node"@) == Some("[合并转发节点] "@),
        segment_label("music"@) == Some("[音乐] "@),
        segment_label("poke"@) == Some("[戳一戳] "@),
        segment_label("dice"@) == Some("[骰子] "@),
        segment_label("rps"@) == Some("[猜拳] "@),
        segment_label("contact"@) == Some("[名片] "@),
        segment_label("location"@) == Some("[位置] "@),
{
    reveal_strlit("image");
    reveal_strlit("face");
    reveal_strlit("record");
    reveal_strlit("video");
    reveal_strlit("file");
    reveal_strlit("json");
    reveal_strlit("mface");
    reveal_strlit("xml");
    reveal_strlit("markdown");
    reveal_strlit("miniapp");
    reveal_strlit("onlinefile");
    reveal_strlit("flashtransfer");
    reveal_strlit("forward");
    reveal_strlit("node");
    reveal_strlit("music");
    reveal_strlit("poke");
    reveal_strlit("dice");
    reveal_strlit("rps");
    reveal_strlit("contact");
    reveal_strlit("location");
    assert("image"@.len() == 5 && "image"@[0] == 'i' && "image"@[1] == 'm');
    assert("face"@.len() == 4 && "face"@[0] == 'f' && "face"@[1] == 'a');
    assert("record"@.len() == 6 && "record"@[0] == 'r' && "record"@[1] == 'e');
    assert("video"@.len() == 5 && "video"@[0] == 'v' && "video"@[1] == 'i');
    assert("file"@.len() == 4 && "file"@[0] == 'f' && "file"@[1] == 'i');
    assert("json"@.len() == 4 && "json"@[0] == 'j' && "json"@[1] == 's');
    assert("mface"@.len() == 5 && "mface"@[0] == 'm' && "mface"@[1] == 'f');
    assert("xml"@.len() == 3 && "xml"@[0] == 'x' && "xml"@[1] == 'm');
    assert("markdown"@.len() == 8 && "markdown"@[0] == 'm' && "markdown"@[1] == 'a');
    assert("miniapp"@.len() == 7 && "miniapp"@[0] == 'm' && "miniapp"@[1] == 'i');
    assert("onlinefile"@.len() == 10 && "onlinefile"@[0] == 'o' && "onlinefile"@[1] == 'n');
    assert("flashtransfer"@.len() == 13 && "flashtransfer"@[0] == 'f' && "flashtransfer"@[1] == 'l');
    assert("forward"@.len() == 7 && "forward"@[0] == 'f' && "forward"@[1] == 'o');
    assert("node"@.len() == 4 && "node"@[0] == 'n' && "node"@[1] == 'o');
    assert("music"@.len() == 5 && "music"@[0] == 'm' && "music"@[1] == 'u');
    assert("poke"@.len() == 4 && "poke"@[0] == 'p' && "poke"@[1] == 'o');
    assert("dice"@.len() == 4 && "dice"@[0] == 'd' && "dice"@[1] == 'i');
    assert("rps"@.len() == 3 && "rps"@[0] == 'r' && "rps"@[1] == 'p');
    assert("contact"@.len() == 7 && "contact"@[0] == 'c' && "contact"@[1] == 'o');
    assert("location"@.len() == 8 && "location"@[0] == 'l' && "location"@[1] == 'o');
}

/// Whoever leaves, goes away or is taken away: which of these it was is told, and so is
/// whether somebody came by an invitation.
pub proof fn law_coming_and_going_is_told(v: JsonView, minutes: Seq<char>, st: Seq<char>)
    requires
        json::str_of(json::field(v, "sub_type"@)) == Some(st),
    ensures
        json::str_of(json::field(v, "notice_type"@)) == Some("group_decrease"@) ==> {
            &&& st == "leave"@ ==> text::includes(notice_desc(v, minutes), "主动退群"@)
            &&& st == "kick"@ ==> text::includes(notice_desc(v, minutes), "被移出群"@)
            &&& st == "kick_me"@ ==> text::includes(notice_desc(v, minutes), "机器人被移出群"@)
        },
        json::str_of(json::field(v, "notice_type"@)) == Some("group_increase"@) ==> {
            &&& st == "invite"@ ==> text::includes(notice_desc(v, minutes), "被邀请入群"@)
            &&& st != "invite"@ ==> text::includes(notice_desc(v, minutes), " 入群("@)
        },
{
    lemma_notice_types();
    reveal_strlit("leave");
    reveal_strlit("kick");
    reveal_strlit("kick_me");
    reveal_strlit(" 入群(");
    reveal_strlit(" ");
    reveal_strlit("入群");
    reveal_strlit("(操作者 ");
    assert("leave"@.len() == 5 && "kick"@.len() == 4 && "kick_me"@.len() == 7);
    let d = notice_desc(v, minutes);
    let u = id_text_of(json::i64_of(json::field(v, "user_id"@)));
    let o = id_text_of(json::i64_of(json::field(v, "operator_id"@)));
    if json::str_of(json::field(v, "notice_type"@)) == Some("group_decrease"@) {
        let k = decrease_kind_of(st);
        let i: int = (u.len() + 1) as int;
        assert(d.subrange(i, i + k.len()) =~= k);
        assert(text::occurs_at(d, k, i));
    }
    if json::str_of(json::field(v, "notice_type"@)) == Some("group_increase"@) {
        if st == "invite"@ {
            let k = "被邀请入群"@;
            let i: int = (u.len() + 1) as int;
            assert(d.subrange(i, i + k.len()) =~= k);
            assert(text::occurs_at(d, k, i));
        } else {
            let k = " 入群("@;
            let i: int = u.len() as int;
            assert(d.subrange(i, i + k.len()) =~= k);
            assert(text::occurs_at(d, k, i));
        }
    }
}

} // verus!
