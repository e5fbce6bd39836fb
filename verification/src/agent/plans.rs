//! What a call of a tool comes to: the action to be performed or the file to be
//! touched, and what is reported of it.

use vstd::prelude::*;
use vstd::string::*;
use crate::agent::OriginInfo;
use crate::json;
use crate::json::{Json, JsonView, Part, PartView};
use crate::napcat;
use crate::napcat::{ActionCall, ActionCallView, MsgKind};
use crate::number;
use crate::sandbox;
use crate::sandbox::{Backend, CmdOutput};
use crate::text;

verus! {

// ---------- operations on QQ ----------

/// How the outcome of an action is reported.
pub enum Report {
    /// In these words, whatever was answered.
    Text(String),
    /// By the id of the message that was sent.
    MessageId,
    /// By the answer itself.
    Raw,
    /// By the texts of the newest messages, at most this many.
    History(u32),
}

pub enum ReportView {
    Text(Seq<char>),
    MessageId,
    Raw,
    History(u32),
}

impl View for Report {
    type V = ReportView;

    open spec fn view(&self) -> ReportView {
        match self {
            Report::Text(s) => ReportView::Text(s@),
            Report::MessageId => ReportView::MessageId,
            Report::Raw => ReportView::Raw,
            Report::History(n) => ReportView::History(*n),
        }
    }
}

/// An action to be performed, and how it is reported.
pub struct QqPlan {
    pub call: ActionCall,
    pub report: Report,
}

pub struct QqPlanView {
    pub call: ActionCallView,
    pub report: ReportView,
}

impl View for QqPlan {
    type V = QqPlanView;

    open spec fn view(&self) -> QqPlanView {
        QqPlanView { call: self.call@, report: self.report@ }
    }
}

pub open spec fn qq_plan_view(action: Seq<char>, params: Seq<(Seq<char>, PartView)>, report: ReportView) -> QqPlanView {
    QqPlanView { call: ActionCallView { action, params }, report }
}

fn qq_plan(action: &str, params: Vec<(String, Part)>, report: Report) -> (r: QqPlan)
    ensures
        r@ == qq_plan_view(action@, json::parts_view(params@), report@),
{
    QqPlan { call: ActionCall { action: action.to_owned(), params }, report }
}

pub open spec fn is_qq_plan(r: Result<QqPlan, String>, want: Result<QqPlanView, Seq<char>>) -> bool {
    match r {
        Ok(p) => want == Ok::<QqPlanView, Seq<char>>(p@),
        Err(e) => want == Err::<QqPlanView, Seq<char>>(e@),
    }
}

pub open spec fn int_at(params: JsonView, key: Seq<char>) -> Option<i64> {
    json::i64_of(json::field(params, key))
}

pub open spec fn str_at(params: JsonView, key: Seq<char>) -> Option<Seq<char>> {
    json::str_of(json::field(params, key))
}

pub open spec fn bool_at(params: JsonView, key: Seq<char>) -> Option<bool> {
    json::bool_of(json::field(params, key))
}

pub open spec fn missing_of(key: Seq<char>) -> Seq<char> {
    "缺少 "@ + key
}

fn missing(key: &str) -> (r: String)
    ensures
        r@ == missing_of(key@),
{
    let mut s = "缺少 ".to_owned();
    s.append(key);
    s
}

fn params1(k: &str, p: Part) -> (r: Vec<(String, Part)>)
    ensures
        json::parts_view(r@) == seq![(k@, p@)],
{
    let r = vec![(k.to_owned(), p)];
    assert(json::parts_view(r@) =~= seq![(k@, p@)]);
    r
}

fn params2(k: &str, p: Part, l: &str, q: Part) -> (r: Vec<(String, Part)>)
    ensures
        json::parts_view(r@) == seq![(k@, p@), (l@, q@)],
{
    let r = vec![(k.to_owned(), p), (l.to_owned(), q)];
    assert(json::parts_view(r@) =~= seq![(k@, p@), (l@, q@)]);
    r
}

fn params3(k: &str, p: Part, l: &str, q: Part, m: &str, x: Part) -> (r: Vec<(String, Part)>)
    ensures
        json::parts_view(r@) == seq![(k@, p@), (l@, q@), (m@, x@)],
{
    let r = vec![(k.to_owned(), p), (l.to_owned(), q), (m.to_owned(), x)];
    assert(json::parts_view(r@) =~= seq![(k@, p@), (l@, q@), (m@, x@)]);
    r
}

/// A task of a group writes to that group only.
pub open spec fn group_msg_plan_of(origin: OriginInfo, params: JsonView) -> Result<QqPlanView, Seq<char>> {
    match int_at(params, "group_id"@) {
        None => Err(missing_of("group_id"@)),
        Some(gid) => if origin.kind == MsgKind::Group && origin.group_id != Some(gid) {
            Err(
                "只能向触发来源群("@ + number::dec(
                    match origin.group_id {
                        Some(g) => g as int,
                        None => 0,
                    },
                ) + ")发送消息"@,
            )
        } else if json::field(params, "message"@) is Null {
            Err(missing_of("message"@))
        } else {
            Ok(
                qq_plan_view(
                    "send_group_msg"@,
                    seq![
                        ("group_id"@, PartView::Int(gid)),
                        ("message"@, PartView::Value(json::field(params, "message"@))),
                    ],
                    ReportView::MessageId,
                ),
            )
        },
    }
}

fn plan_group_msg(origin: &OriginInfo, params: &Json) -> (r: Result<QqPlan, String>)
    ensures
        is_qq_plan(r, group_msg_plan_of(*origin, params@)),
{
    let gid: i64 = match params.i64_field("group_id") {
        Some(x) => x,
        None => {
            return Err(missing("group_id"));
        },
    };
    let own = match origin.group_id {
        Some(g) => g == gid,
        None => false,
    };
    if origin.kind == MsgKind::Group && !own {
        let g: i64 = match origin.group_id {
            Some(g) => g,
            None => 0,
        };
        let mut e = "只能向触发来源群(".to_owned();
        e.append(number::i64_text(g).as_str());
        e.append(")发送消息");
        return Err(e);
    }
    let message = params.field("message");
    if message.is_null() {
        return Err(missing("message"));
    }
    Ok(
        qq_plan(
            "send_group_msg",
            params2("group_id", Part::Int(gid), "message", Part::Value(message)),
            Report::MessageId,
        ),
    )
}

/// A task of a private conversation writes to its sender only.
pub open spec fn private_msg_plan_of(origin: OriginInfo, params: JsonView) -> Result<QqPlanView, Seq<char>> {
    match int_at(params, "user_id"@) {
        None => Err(missing_of("user_id"@)),
        Some(uid) => if origin.kind == MsgKind::Private && uid != origin.user_id {
            Err("只能向触发者("@ + number::dec(origin.user_id as int) + ")发送私聊消息"@)
        } else if json::field(params, "message"@) is Null {
            Err(missing_of("message"@))
        } else {
            Ok(
                qq_plan_view(
                    "send_private_msg"@,
                    seq![
                        ("user_id"@, PartView::Int(uid)),
                        ("message"@, PartView::Value(json::field(params, "message"@))),
                    ],
                    ReportView::MessageId,
                ),
            )
        },
    }
}

fn plan_private_msg(origin: &OriginInfo, params: &Json) -> (r: Result<QqPlan, String>)
    ensures
        is_qq_plan(r, private_msg_plan_of(*origin, params@)),
{
    let uid: i64 = match params.i64_field("user_id") {
        Some(x) => x,
        None => {
            return Err(missing("user_id"));
        },
    };
    if origin.kind == MsgKind::Private && uid != origin.user_id {
        let mut e = "只能向触发者(".to_owned();
        e.append(number::i64_text(origin.user_id).as_str());
        e.append(")发送私聊消息");
        return Err(e);
    }
    let message = params.field("message");
    if message.is_null() {
        return Err(missing("message"));
    }
    Ok(
        qq_plan(
            "send_private_msg",
            params2("user_id", Part::Int(uid), "message", Part::Value(message)),
            Report::MessageId,
        ),
    )
}

/// How many messages are asked for: ten unless said otherwise, one to fifty.
pub open spec fn history_count_of(params: JsonView) -> i64 {
    match int_at(params, "count"@) {
        None => 10,
        Some(n) => if n < 1 {
            1
        } else if n > 50 {
            50
        } else {
            n
        },
    }
}

pub open spec fn history_plan_of(params: JsonView) -> Result<QqPlanView, Seq<char>> {
    match int_at(params, "group_id"@) {
        None => Err(missing_of("group_id"@)),
        Some(gid) => Ok(
            qq_plan_view(
                "get_group_msg_history"@,
                seq![
                    ("group_id"@, PartView::Int(gid)),
                    ("count"@, PartView::Int(history_count_of(params))),
                ],
                ReportView::History(history_count_of(params) as u32),
            ),
        ),
    }
}

fn plan_history(params: &Json) -> (r: Result<QqPlan, String>)
    ensures
        is_qq_plan(r, history_plan_of(params@)),
{
    let gid: i64 = match params.i64_field("group_id") {
        Some(x) => x,
        None => {
            return Err(missing("group_id"));
        },
    };
    let count: i64 = match params.i64_field("count") {
        None => 10,
        Some(n) => if n < 1 {
            1
        } else if n > 50 {
            50
        } else {
            n
        },
    };
    Ok(
        qq_plan(
            "get_group_msg_history",
            params2("group_id", Part::Int(gid), "count", Part::Int(count)),
            Report::History(count as u32),
        ),
    )
}

pub open spec fn poke_plan_of(params: JsonView) -> Result<QqPlanView, Seq<char>> {
    match int_at(params, "user_id"@) {
        None => Err(missing_of("user_id"@)),
        Some(uid) => Ok(
            qq_plan_view(
                "send_poke"@,
                match int_at(params, "group_id"@) {
                    Some(gid) => seq![
                        ("user_id"@, PartView::Int(uid)),
                        ("group_id"@, PartView::Int(gid)),
                    ],
                    None => seq![("user_id"@, PartView::Int(uid))],
                },
                ReportView::Text("已戳 "@ + number::dec(uid as int)),
            ),
        ),
    }
}

fn plan_poke(params: &Json) -> (r: Result<QqPlan, String>)
    ensures
        is_qq_plan(r, poke_plan_of(params@)),
{
    let uid: i64 = match params.i64_field("user_id") {
        Some(x) => x,
        None => {
            return Err(missing("user_id"));
        },
    };
    let mut s = "已戳 ".to_owned();
    s.append(number::i64_text(uid).as_str());
    let list = match params.i64_field("group_id") {
        Some(gid) => params2("user_id", Part::Int(uid), "group_id", Part::Int(gid)),
        None => params1("user_id", Part::Int(uid)),
    };
    Ok(qq_plan("send_poke", list, Report::Text(s)))
}

pub open spec fn ban_plan_of(params: JsonView) -> Result<QqPlanView, Seq<char>> {
    match int_at(params, "group_id"@) {
        None => Err(missing_of("group_id"@)),
        Some(gid) => match int_at(params, "user_id"@) {
            None => Err(missing_of("user_id"@)),
            Some(uid) => {
                let dur = match int_at(params, "duration"@) {
                    Some(d) => d,
                    None => 0,
                };
                Ok(
                    qq_plan_view(
                        "set_group_ban"@,
                        seq![
                            ("group_id"@, PartView::Int(gid)),
                            ("user_id"@, PartView::Int(uid)),
                            ("duration"@, PartView::Int(dur)),
                        ],
                        ReportView::Text(
                            if dur == 0 {
                                "已解除 "@ + number::dec(uid as int) + " 禁言"@
                            } else {
                                "已禁言 "@ + number::dec(uid as int) + " "@ + number::dec(dur as int) + " 秒"@
                            },
                        ),
                    ),
                )
            },
        },
    }
}

fn plan_ban(params: &Json) -> (r: Result<QqPlan, String>)
    ensures
        is_qq_plan(r, ban_plan_of(params@)),
{
    let gid: i64 = match params.i64_field("group_id") {
        Some(x) => x,
        None => {
            return Err(missing("group_id"));
        },
    };
    let uid: i64 = match params.i64_field("user_id") {
        Some(x) => x,
        None => {
            return Err(missing("user_id"));
        },
    };
    let dur: i64 = match params.i64_field("duration") {
        Some(d) => d,
        None => 0,
    };
    let s = if dur == 0 {
        let mut s = "已解除 ".to_owned();
        s.append(number::i64_text(uid).as_str());
        s.append(" 禁言");
        s
    } else {
        let mut s = "已禁言 ".to_owned();
        s.append(number::i64_text(uid).as_str());
        s.append(" ");
        s.append(number::i64_text(dur).as_str());
        s.append(" 秒");
        s
    };
    Ok(
        qq_plan(
            "set_group_ban",
            params3("group_id", Part::Int(gid), "user_id", Part::Int(uid), "duration", Part::Int(dur)),
            Report::Text(s),
        ),
    )
}

pub open spec fn whole_ban_plan_of(params: JsonView) -> Result<QqPlanView, Seq<char>> {
    match int_at(params, "group_id"@) {
        None => Err(missing_of("group_id"@)),
        Some(gid) => match bool_at(params, "enable"@) {
            None => Err(missing_of("enable"@)),
            Some(enable) => Ok(
                qq_plan_view(
                    "set_group_whole_ban"@,
                    seq![("group_id"@, PartView::Int(gid)), ("enable"@, PartView::Bool(enable))],
                    ReportView::Text(
                        if enable {
                            "已全体禁言"@
                        } else {
                            "已解除全体禁言"@
                        },
                    ),
                ),
            ),
        },
    }
}

fn plan_whole_ban(params: &Json) -> (r: Result<QqPlan, String>)
    ensures
        is_qq_plan(r, whole_ban_plan_of(params@)),
{
    let gid: i64 = match params.i64_field("group_id") {
        Some(x) => x,
        None => {
            return Err(missing("group_id"));
        },
    };
    let enable = match params.bool_field("enable") {
        Some(b) => b,
        None => {
            return Err(missing("enable"));
        },
    };
    let s = if enable {
        "已全体禁言"
    } else {
        "已解除全体禁言"
    };
    Ok(
        qq_plan(
            "set_group_whole_ban",
            params2("group_id", Part::Int(gid), "enable", Part::Bool(enable)),
            Report::Text(s.to_owned()),
        ),
    )
}

pub open spec fn kick_plan_of(params: JsonView) -> Result<QqPlanView, Seq<char>> {
    match int_at(params, "group_id"@) {
        None => Err(missing_of("group_id"@)),
        Some(gid) => match int_at(params, "user_id"@) {
            None => Err(missing_of("user_id"@)),
            Some(uid) => Ok(
                qq_plan_view(
                    "set_group_kick"@,
                    match bool_at(params, "reject_add_request"@) {
                        Some(b) => seq![
                            ("group_id"@, PartView::Int(gid)),
                            ("user_id"@, PartView::Int(uid)),
                            ("reject_add_request"@, PartView::Bool(b)),
                        ],
                        None => seq![
                            ("group_id"@, PartView::Int(gid)),
                            ("user_id"@, PartView::Int(uid)),
                        ],
                    },
                    ReportView::Text(
                        "已将 "@ + number::dec(uid as int) + " 移出群 "@ + number::dec(gid as int),
                    ),
                ),
            ),
        },
    }
}

fn plan_kick(params: &Json) -> (r: Result<QqPlan, String>)
    ensures
        is_qq_plan(r, kick_plan_of(params@)),
{
    let gid: i64 = match params.i64_field("group_id") {
        Some(x) => x,
        None => {
            return Err(missing("group_id"));
        },
    };
    let uid: i64 = match params.i64_field("user_id") {
        Some(x) => x,
        None => {
            return Err(missing("user_id"));
        },
    };
    let mut s = "已将 ".to_owned();
    s.append(number::i64_text(uid).as_str());
    s.append(" 移出群 ");
    s.append(number::i64_text(gid).as_str());
    let list = match params.bool_field("reject_add_request") {
        Some(b) => params3(
            "group_id",
            Part::Int(gid),
            "user_id",
            Part::Int(uid),
            "reject_add_request",
            Part::Bool(b),
        ),
        None => params2("group_id", Part::Int(gid), "user_id", Part::Int(uid)),
    };
    Ok(qq_plan("set_group_kick", list, Report::Text(s)))
}

pub open spec fn essence_plan_of(params: JsonView) -> Result<QqPlanView, Seq<char>> {
    match int_at(params, "message_id"@) {
        None => Err(missing_of("message_id"@)),
        Some(mid) => Ok(
            qq_plan_view(
                "set_essence_msg"@,
                seq![("message_id"@, PartView::Int(mid))],
                ReportView::Text("已设置群精华"@),
            ),
        ),
    }
}

fn plan_essence(params: &Json) -> (r: Result<QqPlan, String>)
    ensures
        is_qq_plan(r, essence_plan_of(params@)),
{
    let mid: i64 = match params.i64_field("message_id") {
        Some(x) => x,
        None => {
            return Err(missing("message_id"));
        },
    };
    let s = "已设置群精华".to_owned();
    Ok(qq_plan("set_essence_msg", params1("message_id", Part::Int(mid)), Report::Text(s)))
}

pub open spec fn remark_plan_of(params: JsonView) -> Result<QqPlanView, Seq<char>> {
    match int_at(params, "user_id"@) {
        None => Err(missing_of("user_id"@)),
        Some(uid) => match str_at(params, "remark"@) {
                None => Err(missing_of("remark"@)),
                Some(remark) => Ok(
                    qq_plan_view(
                        "set_friend_remark"@,
                        seq![("user_id"@, PartView::Int(uid)), ("remark"@, PartView::Text(remark))],
                        ReportView::Text("已将好友 "@ + number::dec(uid as int) + " 备注改为「"@ + remark + "」"@),
                    ),
                ),
            },
    }
}

fn plan_remark(params: &Json) -> (r: Result<QqPlan, String>)
    ensures
        is_qq_plan(r, remark_plan_of(params@)),
{
    let uid: i64 = match params.i64_field("user_id") {
        Some(x) => x,
        None => {
            return Err(missing("user_id"));
        },
    };
    let remark = match params.str_field("remark") {
        Some(x) => x,
        None => {
            return Err(missing("remark"));
        },
    };
    let mut s = "已将好友 ".to_owned();
    s.append(number::i64_text(uid).as_str());
    s.append(" 备注改为「");
    s.append(remark);
    s.append("」");
    Ok(qq_plan("set_friend_remark", params2("user_id", Part::Int(uid), "remark", Part::Text(remark.to_owned())), Report::Text(s)))
}

pub open spec fn card_plan_of(params: JsonView) -> Result<QqPlanView, Seq<char>> {
    match int_at(params, "group_id"@) {
        None => Err(missing_of("group_id"@)),
        Some(gid) =>
            match int_at(params, "user_id"@) {
                None => Err(missing_of("user_id"@)),
                Some(uid) => {
                    let card = json::str_field_or(params, "card"@, ""@);
                    Ok(
                    qq_plan_view(
                        "set_group_card"@,
                        seq![("group_id"@, PartView::Int(gid)), ("user_id"@, PartView::Int(uid)), ("card"@, PartView::Text(card))],
                        ReportView::Text("已将 "@ + number::dec(uid as int) + " 的群名片改为「"@ + card + "」"@),
                    ),
                )
                },
            },
    }
}

fn plan_card(params: &Json) -> (r: Result<QqPlan, String>)
    ensures
        is_qq_plan(r, card_plan_of(params@)),
{
    let gid: i64 = match params.i64_field("group_id") {
        Some(x) => x,
        None => {
            return Err(missing("group_id"));
        },
    };
    let uid: i64 = match params.i64_field("user_id") {
        Some(x) => x,
        None => {
            return Err(missing("user_id"));
        },
    };
    let card = params.str_field_or("card", "");
    let mut s = "已将 ".to_owned();
    s.append(number::i64_text(uid).as_str());
    s.append(" 的群名片改为「");
    s.append(card);
    s.append("」");
    Ok(qq_plan("set_group_card", params3("group_id", Part::Int(gid), "user_id", Part::Int(uid), "card", Part::Text(card.to_owned())), Report::Text(s)))
}

pub open spec fn sign_plan_of(params: JsonView) -> Result<QqPlanView, Seq<char>> {
    match int_at(params, "group_id"@) {
        None => Err(missing_of("group_id"@)),
        Some(gid) => Ok(
            qq_plan_view(
                "send_group_sign"@,
                seq![("group_id"@, PartView::Int(gid))],
                ReportView::Text("群 "@ + number::dec(gid as int) + " 打卡成功"@),
            ),
        ),
    }
}

fn plan_sign(params: &Json) -> (r: Result<QqPlan, String>)
    ensures
        is_qq_plan(r, sign_plan_of(params@)),
{
    let gid: i64 = match params.i64_field("group_id") {
        Some(x) => x,
        None => {
            return Err(missing("group_id"));
        },
    };
    let mut s = "群 ".to_owned();
    s.append(number::i64_text(gid).as_str());
    s.append(" 打卡成功");
    Ok(qq_plan("send_group_sign", params1("group_id", Part::Int(gid)), Report::Text(s)))
}

pub open spec fn get_msg_plan_of(params: JsonView) -> Result<QqPlanView, Seq<char>> {
    match int_at(params, "message_id"@) {
        None => Err(missing_of("message_id"@)),
        Some(mid) => Ok(
            qq_plan_view(
                "get_msg"@,
                seq![("message_id"@, PartView::Int(mid))],
                ReportView::Raw,
            ),
        ),
    }
}

fn plan_get_msg(params: &Json) -> (r: Result<QqPlan, String>)
    ensures
        is_qq_plan(r, get_msg_plan_of(params@)),
{
    let mid: i64 = match params.i64_field("message_id") {
        Some(x) => x,
        None => {
            return Err(missing("message_id"));
        },
    };
    Ok(qq_plan("get_msg", params1("message_id", Part::Int(mid)), Report::Raw))
}

pub open spec fn member_plan_of(params: JsonView) -> Result<QqPlanView, Seq<char>> {
    match int_at(params, "group_id"@) {
        None => Err(missing_of("group_id"@)),
        Some(gid) =>
            match int_at(params, "user_id"@) {
                None => Err(missing_of("user_id"@)),
                Some(uid) => Ok(
                    qq_plan_view(
                        "get_group_member_info"@,
                        seq![("group_id"@, PartView::Int(gid)), ("user_id"@, PartView::Int(uid))],
                        ReportView::Raw,
                    ),
                ),
            },
    }
}

fn plan_member(params: &Json) -> (r: Result<QqPlan, String>)
    ensures
        is_qq_plan(r, member_plan_of(params@)),
{
    let gid: i64 = match params.i64_field("group_id") {
        Some(x) => x,
        None => {
            return Err(missing("group_id"));
        },
    };
    let uid: i64 = match params.i64_field("user_id") {
        Some(x) => x,
        None => {
            return Err(missing("user_id"));
        },
    };
    Ok(qq_plan("get_group_member_info", params2("group_id", Part::Int(gid), "user_id", Part::Int(uid)), Report::Raw))
}

pub open spec fn upload_plan_of(params: JsonView) -> Result<QqPlanView, Seq<char>> {
    match int_at(params, "group_id"@) {
        None => Err(missing_of("group_id"@)),
        Some(gid) =>
            match str_at(params, "file"@) {
                None => Err(missing_of("file"@)),
                Some(file) => {
                    let name = json::str_field_or(params, "name"@, "file"@);
                    Ok(
                    qq_plan_view(
                        "upload_group_file"@,
                        seq![("group_id"@, PartView::Int(gid)), ("file"@, PartView::Text(file)), ("name"@, PartView::Text(name))],
                        ReportView::Text("已上传群文件「"@ + name + "」"@),
                    ),
                )
                },
            },
    }
}

fn plan_upload(params: &Json) -> (r: Result<QqPlan, String>)
    ensures
        is_qq_plan(r, upload_plan_of(params@)),
{
    let gid: i64 = match params.i64_field("group_id") {
        Some(x) => x,
        None => {
            return Err(missing("group_id"));
        },
    };
    let file = match params.str_field("file") {
        Some(x) => x,
        None => {
            return Err(missing("file"));
        },
    };
    let name = params.str_field_or("name", "file");
    let mut s = "已上传群文件「".to_owned();
    s.append(name);
    s.append("」");
    Ok(qq_plan("upload_group_file", params3("group_id", Part::Int(gid), "file", Part::Text(file.to_owned()), "name", Part::Text(name.to_owned())), Report::Text(s)))
}

pub open spec fn get_file_plan_of(params: JsonView) -> Result<QqPlanView, Seq<char>> {
    match str_at(params, "file_id"@) {
        None => Err(missing_of("file_id"@)),
        Some(fid) => Ok(
            qq_plan_view(
                "get_file"@,
                seq![("file_id"@, PartView::Text(fid))],
                ReportView::Raw,
            ),
        ),
    }
}

fn plan_get_file(params: &Json) -> (r: Result<QqPlan, String>)
    ensures
        is_qq_plan(r, get_file_plan_of(params@)),
{
    let fid = match params.str_field("file_id") {
        Some(x) => x,
        None => {
            return Err(missing("file_id"));
        },
    };
    Ok(qq_plan("get_file", params1("file_id", Part::Text(fid.to_owned())), Report::Raw))
}

pub open spec fn delete_plan_of(params: JsonView) -> Result<QqPlanView, Seq<char>> {
    match int_at(params, "message_id"@) {
        None => Err(missing_of("message_id"@)),
        Some(mid) => Ok(
            qq_plan_view(
                "delete_msg"@,
                seq![("message_id"@, PartView::Int(mid))],
                ReportView::Text("已撤回消息 "@ + number::dec(mid as int)),
            ),
        ),
    }
}

fn plan_delete(params: &Json) -> (r: Result<QqPlan, String>)
    ensures
        is_qq_plan(r, delete_plan_of(params@)),
{
    let mid: i64 = match params.i64_field("message_id") {
        Some(x) => x,
        None => {
            return Err(missing("message_id"));
        },
    };
    let mut s = "已撤回消息 ".to_owned();
    s.append(number::i64_text(mid).as_str());
    Ok(qq_plan("delete_msg", params1("message_id", Part::Int(mid)), Report::Text(s)))
}

/// What a tool of QQ comes to, or why it cannot be used so.
pub open spec fn qq_plan_of(origin: OriginInfo, tool: Seq<char>, params: JsonView) -> Result<QqPlanView, Seq<char>> {
    if tool == "send_group_msg"@ {
        group_msg_plan_of(origin, params)
    } else if tool == "send_private_msg"@ {
        private_msg_plan_of(origin, params)
    } else if tool == "set_essence_msg"@ {
        essence_plan_of(params)
    } else if tool == "set_friend_remark"@ {
        remark_plan_of(params)
    } else if tool == "set_group_card"@ {
        card_plan_of(params)
    } else if tool == "send_group_sign"@ {
        sign_plan_of(params)
    } else if tool == "get_msg"@ {
        get_msg_plan_of(params)
    } else if tool == "get_group_msg_history"@ {
        history_plan_of(params)
    } else if tool == "get_group_member_info"@ {
        member_plan_of(params)
    } else if tool == "send_poke"@ {
        poke_plan_of(params)
    } else if tool == "upload_group_file"@ {
        upload_plan_of(params)
    } else if tool == "get_file"@ {
        get_file_plan_of(params)
    } else if tool == "delete_msg"@ {
        delete_plan_of(params)
    } else if tool == "set_group_ban"@ {
        ban_plan_of(params)
    } else if tool == "set_group_whole_ban"@ {
        whole_ban_plan_of(params)
    } else if tool == "set_group_kick"@ {
        kick_plan_of(params)
    } else {
        Err("未知 QQ 工具: "@ + tool)
    }
}

/// Plans the use of a tool of QQ.
pub fn plan_qq_tool(origin: &OriginInfo, tool: &str, params: &Json) -> (r: Result<QqPlan, String>)
    ensures
        is_qq_plan(r, qq_plan_of(*origin, tool@, params@)),
{
    if text::same(tool, "send_group_msg") {
        plan_group_msg(origin, params)
    } else if text::same(tool, "send_private_msg") {
        plan_private_msg(origin, params)
    } else if text::same(tool, "set_essence_msg") {
        plan_essence(params)
    } else if text::same(tool, "set_friend_remark") {
        plan_remark(params)
    } else if text::same(tool, "set_group_card") {
        plan_card(params)
    } else if text::same(tool, "send_group_sign") {
        plan_sign(params)
    } else if text::same(tool, "get_msg") {
        plan_get_msg(params)
    } else if text::same(tool, "get_group_msg_history") {
        plan_history(params)
    } else if text::same(tool, "get_group_member_info") {
        plan_member(params)
    } else if text::same(tool, "send_poke") {
        plan_poke(params)
    } else if text::same(tool, "upload_group_file") {
        plan_upload(params)
    } else if text::same(tool, "get_file") {
        plan_get_file(params)
    } else if text::same(tool, "delete_msg") {
        plan_delete(params)
    } else if text::same(tool, "set_group_ban") {
        plan_ban(params)
    } else if text::same(tool, "set_group_whole_ban") {
        plan_whole_ban(params)
    } else if text::same(tool, "set_group_kick") {
        plan_kick(params)
    } else {
        let mut e = "未知 QQ 工具: ".to_owned();
        e.append(tool);
        Err(e)
    }
}

/// One message of a history.
pub open spec fn history_line(m: JsonView) -> Seq<char> {
    "[QQ"@ + number::dec(
        match json::i64_of(json::field(m, "user_id"@)) {
            Some(u) => u as int,
            None => 0,
        },
    ) + "] "@ + napcat::content_of(json::field(m, "message"@), None).text + "\n"@
}

/// The newest `n` messages, the newest first.
pub open spec fn history_lines(msgs: Seq<JsonView>, n: int) -> Seq<char>
    decreases n,
{
    if n <= 0 || n > msgs.len() {
        Seq::<char>::empty()
    } else {
        history_lines(msgs, n - 1) + history_line(msgs[msgs.len() - n])
    }
}

/// The report of an action that succeeded with this answer.
pub open spec fn report_of(report: ReportView, answer: JsonView) -> Seq<char> {
    match report {
        ReportView::Text(s) => s,
        ReportView::MessageId => "已发送,message_id="@ + json::json_text(
            json::field(answer, "message_id"@),
        ),
        ReportView::Raw => json::json_text(answer),
        ReportView::History(count) => {
            let msgs = json::elements(json::field(answer, "messages"@));
            let n = if count < msgs.len() {
                count as int
            } else {
                msgs.len() as int
            };
            if msgs.len() == 0 {
                "(无历史消息)"@
            } else {
                text::trim_of(history_lines(msgs, n))
            }
        },
    }
}

fn history_text(answer: &Json, count: u32) -> (r: String)
    ensures
        r@ == report_of(ReportView::History(count), answer@),
{
    let list = answer.field("messages");
    let total: usize = match list.array_len() {
        Some(n) => n,
        None => 0,
    };
    if total == 0 {
        return "(无历史消息)".to_owned();
    }
    let ghost msgs = json::elements(list@);
    let n: usize = if (count as u64) < (total as u64) {
        count as usize
    } else {
        total
    };
    let mut s = String::new();
    let mut k: usize = 0;
    assert(s@ =~= history_lines(msgs, 0));
    while k < n
        invariant
            k <= n <= total,
            list@ is Array,
            msgs == json::elements(list@),
            msgs.len() == total,
            s@ == history_lines(msgs, k as int),
        decreases n - k,
    {
        if let Some(m) = list.at(total - 1 - k) {
            let uid: i64 = match m.i64_field("user_id") {
                Some(u) => u,
                None => 0,
            };
            let ghost before = s@;
            s.append("[QQ");
            s.append(number::i64_text(uid).as_str());
            s.append("] ");
            s.append(napcat::extract_text_for_display(m).as_str());
            s.append("\n");
            assert(s@ =~= before + history_line(m@));
            assert(m@ == msgs[msgs.len() - (k + 1)]);
        }
        k += 1;
    }
    text::trim(s.as_str()).to_owned()
}

/// Reports an action: its failure, or its answer as planned.
pub fn report_action(report: &Report, outcome: Result<Json, String>) -> (r: Result<String, String>)
    ensures
        match outcome {
            Ok(answer) => r matches Ok(s) && s@ == report_of(report@, answer@),
            Err(e) => r == Err::<String, String>(e),
        },
{
    let answer = match outcome {
        Ok(v) => v,
        Err(e) => {
            return Err(e);
        },
    };
    let s = match report {
        Report::Text(s) => s.clone(),
        Report::MessageId => {
            let mut s = "已发送,message_id=".to_owned();
            s.append(answer.field("message_id").text());
            s
        },
        Report::Raw => answer.text().to_owned(),
        Report::History(n) => history_text(&answer, *n),
    };
    Ok(s)
}

// ---------- tools of the sandbox ----------

/// What a tool of the sandbox comes to. Paths are relative to the root of the sandbox
/// and have been checked not to lead out of it.
pub enum SandboxPlan {
    /// Nothing is to be done but to say this.
    Reply(String),
    Read { path: String },
    Write { path: String, content: String, report: String },
    /// List a directory; the root where no path is given.
    List { dir: Option<String> },
    Run { cmd: String, args: Vec<String> },
    /// Ask NapCat for a file, which is then copied to the downloads.
    FetchFile { call: ActionCall },
    SendFile { target_type: String, target_id: i64, path: String, name: Option<String> },
    /// Fetch from the network, to this place below the downloads.
    Download { url: String, target: String },
}

pub enum SandboxPlanView {
    Reply(Seq<char>),
    Read { path: Seq<char> },
    Write { path: Seq<char>, content: Seq<char>, report: Seq<char> },
    List { dir: Option<Seq<char>> },
    Run { cmd: Seq<char>, args: Seq<Seq<char>> },
    FetchFile { call: ActionCallView },
    SendFile { target_type: Seq<char>, target_id: i64, path: Seq<char>, name: Option<Seq<char>> },
    Download { url: Seq<char>, target: Seq<char> },
}

impl View for SandboxPlan {
    type V = SandboxPlanView;

    open spec fn view(&self) -> SandboxPlanView {
        match self {
            SandboxPlan::Reply(s) => SandboxPlanView::Reply(s@),
            SandboxPlan::Read { path } => SandboxPlanView::Read { path: path@ },
            SandboxPlan::Write { path, content, report } => SandboxPlanView::Write {
                path: path@,
                content: content@,
                report: report@,
            },
            SandboxPlan::List { dir } => SandboxPlanView::List { dir: text::opt_view(*dir) },
            SandboxPlan::Run { cmd, args } => SandboxPlanView::Run {
                cmd: cmd@,
                args: text::views(args@),
            },
            SandboxPlan::FetchFile { call } => SandboxPlanView::FetchFile { call: call@ },
            SandboxPlan::SendFile { target_type, target_id, path, name } => SandboxPlanView::SendFile {
                target_type: target_type@,
                target_id: *target_id,
                path: path@,
                name: text::opt_view(*name),
            },
            SandboxPlan::Download { url, target } => SandboxPlanView::Download {
                url: url@,
                target: target@,
            },
        }
    }
}

pub open spec fn is_sandbox_plan(
    r: Result<SandboxPlan, String>,
    want: Result<SandboxPlanView, Seq<char>>,
) -> bool {
    match r {
        Ok(p) => want == Ok::<SandboxPlanView, Seq<char>>(p@),
        Err(e) => want == Err::<SandboxPlanView, Seq<char>>(e@),
    }
}

/// Why a path may not be used; none where it stays in the sandbox.
pub open spec fn path_fault(path: Seq<char>) -> Option<Seq<char>> {
    match sandbox::path_end(path) {
        sandbox::PathEnd::Inside(_) => None,
        sandbox::PathEnd::Refused(e) => Some(e),
    }
}

fn check_path(path: &str) -> (r: Option<String>)
    ensures
        text::opt_view(r) == path_fault(path@),
{
    match sandbox::path_parts(path) {
        Ok(_) => None,
        Err(e) => Some(e),
    }
}

pub open spec fn write_report_of(path: Seq<char>, content: Seq<char>) -> Seq<char> {
    "已写入 "@ + path + "("@ + number::dec(content.len() as int) + " 字符)"@
}

pub open spec fn read_plan_of(params: JsonView) -> Result<SandboxPlanView, Seq<char>> {
    match str_at(params, "path"@) {
        None => Err(missing_of("path"@)),
        Some(path) => match path_fault(path) {
            Some(e) => Err(e),
            None => Ok(SandboxPlanView::Read { path }),
        },
    }
}

pub open spec fn write_plan_of(params: JsonView) -> Result<SandboxPlanView, Seq<char>> {
    match str_at(params, "path"@) {
        None => Err(missing_of("path"@)),
        Some(path) => match path_fault(path) {
            Some(e) => Err(e),
            None => {
                let content = json::str_field_or(params, "content"@, ""@);
                Ok(SandboxPlanView::Write { path, content, report: write_report_of(path, content) })
            },
        },
    }
}

pub open spec fn list_plan_of(params: JsonView) -> Result<SandboxPlanView, Seq<char>> {
    match str_at(params, "path"@) {
        None => Ok(SandboxPlanView::List { dir: None }),
        Some(path) => if text::trim_of(path).len() == 0 {
            Ok(SandboxPlanView::List { dir: None })
        } else {
            match path_fault(path) {
                Some(e) => Err(e),
                None => Ok(SandboxPlanView::List { dir: Some(path) }),
            }
        },
    }
}

pub open spec fn run_plan_of(params: JsonView) -> Result<SandboxPlanView, Seq<char>> {
    match str_at(params, "cmd"@) {
        None => Err(missing_of("cmd"@)),
        Some(cmd) => Ok(
            SandboxPlanView::Run {
                cmd,
                args: json::texts_of(json::elements(json::field(params, "args"@))),
            },
        ),
    }
}

pub open spec fn fetch_plan_of(params: JsonView) -> Result<SandboxPlanView, Seq<char>> {
    match str_at(params, "file_id"@) {
        None => Err(missing_of("file_id"@)),
        Some(fid) => Ok(
            SandboxPlanView::FetchFile {
                call: ActionCallView {
                    action: "get_file"@,
                    params: seq![("file_id"@, PartView::Text(fid))],
                },
            },
        ),
    }
}

pub open spec fn send_plan_of(params: JsonView) -> Result<SandboxPlanView, Seq<char>> {
    match str_at(params, "target_type"@) {
        None => Err(missing_of("target_type"@)),
        Some(target_type) => match int_at(params, "target_id"@) {
            None => Err(missing_of("target_id"@)),
            Some(target_id) => match str_at(params, "path"@) {
                None => Err(missing_of("path"@)),
                Some(path) => match path_fault(path) {
                    Some(e) => Err(e),
                    None => Ok(
                        SandboxPlanView::SendFile {
                            target_type,
                            target_id,
                            path,
                            name: str_at(params, "name"@),
                        },
                    ),
                },
            },
        },
    }
}

/// The name under which an address is kept: the given one, or the last piece of it.
pub open spec fn download_name_of(params: JsonView, url: Seq<char>) -> Seq<char> {
    match str_at(params, "name"@) {
        Some(n) => n,
        None => {
            let last = text::split_of(url, '/').last();
            if last.len() > 0 {
                last
            } else {
                "download"@
            }
        },
    }
}

/// A name may be a path; it must not lead out of the sandbox.
pub open spec fn download_plan_of(params: JsonView) -> Result<SandboxPlanView, Seq<char>> {
    match str_at(params, "url"@) {
        None => Err(missing_of("url"@)),
        Some(url) => {
            let name = download_name_of(params, url);
            match sandbox::leads_out_of("downloads"@, name) {
                Some(e) => Err(e),
                None => Ok(SandboxPlanView::Download { url, target: name }),
            }
        },
    }
}

/// What a tool of the sandbox comes to, or why it cannot be used so.
pub open spec fn sandbox_plan_of(
    backend: Option<Backend>,
    tool: Seq<char>,
    params: JsonView,
) -> Result<SandboxPlanView, Seq<char>> {
    match backend {
        None => Err("沙箱未就绪"@),
        Some(b) => if tool == "sandbox_status"@ {
            Ok(
                SandboxPlanView::Reply(
                    "沙箱就绪: 后端="@ + b.name_of() + " 根目录="@ + b.root_of(),
                ),
            )
        } else if tool == "sandbox_read_file"@ {
            read_plan_of(params)
        } else if tool == "sandbox_write_file"@ {
            write_plan_of(params)
        } else if tool == "sandbox_list_dir"@ {
            list_plan_of(params)
        } else if tool == "sandbox_run_cmd"@ {
            run_plan_of(params)
        } else if tool == "sandbox_download_qq_file"@ {
            fetch_plan_of(params)
        } else if tool == "sandbox_send_file"@ {
            send_plan_of(params)
        } else if tool == "sandbox_download_url"@ {
            download_plan_of(params)
        } else {
            Err("未知沙箱工具: "@ + tool)
        },
    }
}

fn plan_read(params: &Json) -> (r: Result<SandboxPlan, String>)
    ensures
        is_sandbox_plan(r, read_plan_of(params@)),
{
    let path = match params.str_field("path") {
        Some(p) => p,
        None => {
            return Err(missing("path"));
        },
    };
    match check_path(path) {
        Some(e) => Err(e),
        None => Ok(SandboxPlan::Read { path: path.to_owned() }),
    }
}

fn plan_write(params: &Json) -> (r: Result<SandboxPlan, String>)
    ensures
        is_sandbox_plan(r, write_plan_of(params@)),
{
    let path = match params.str_field("path") {
        Some(p) => p,
        None => {
            return Err(missing("path"));
        },
    };
    if let Some(e) = check_path(path) {
        return Err(e);
    }
    let content = params.str_field_or("content", "");
    let mut report = "已写入 ".to_owned();
    report.append(path);
    report.append("(");
    report.append(number::usize_text(content.unicode_len()).as_str());
    report.append(" 字符)");
    Ok(SandboxPlan::Write { path: path.to_owned(), content: content.to_owned(), report })
}

fn plan_list(params: &Json) -> (r: Result<SandboxPlan, String>)
    ensures
        is_sandbox_plan(r, list_plan_of(params@)),
{
    let path = match params.str_field("path") {
        Some(p) => p,
        None => {
            return Ok(SandboxPlan::List { dir: None });
        },
    };
    if text::trim(path).is_empty() {
        return Ok(SandboxPlan::List { dir: None });
    }
    match check_path(path) {
        Some(e) => Err(e),
        None => Ok(SandboxPlan::List { dir: Some(path.to_owned()) }),
    }
}

fn plan_run(params: &Json) -> (r: Result<SandboxPlan, String>)
    ensures
        is_sandbox_plan(r, run_plan_of(params@)),
{
    match params.str_field("cmd") {
        Some(cmd) => Ok(
            SandboxPlan::Run { cmd: cmd.to_owned(), args: params.field("args").texts() },
        ),
        None => Err(missing("cmd")),
    }
}

fn plan_fetch(params: &Json) -> (r: Result<SandboxPlan, String>)
    ensures
        is_sandbox_plan(r, fetch_plan_of(params@)),
{
    match params.str_field("file_id") {
        Some(fid) => Ok(
            SandboxPlan::FetchFile {
                call: ActionCall {
                    action: "get_file".to_owned(),
                    params: params1("file_id", Part::Text(fid.to_owned())),
                },
            },
        ),
        None => Err(missing("file_id")),
    }
}

fn plan_send(params: &Json) -> (r: Result<SandboxPlan, String>)
    ensures
        is_sandbox_plan(r, send_plan_of(params@)),
{
    let target_type = match params.str_field("target_type") {
        Some(t) => t,
        None => {
            return Err(missing("target_type"));
        },
    };
    let target_id: i64 = match params.i64_field("target_id") {
        Some(t) => t,
        None => {
            return Err(missing("target_id"));
        },
    };
    let path = match params.str_field("path") {
        Some(p) => p,
        None => {
            return Err(missing("path"));
        },
    };
    if let Some(e) = check_path(path) {
        return Err(e);
    }
    let name = match params.str_field("name") {
        Some(n) => Some(n.to_owned()),
        None => None,
    };
    Ok(
        SandboxPlan::SendFile {
            target_type: target_type.to_owned(),
            target_id,
            path: path.to_owned(),
            name,
        },
    )
}

fn plan_download(params: &Json) -> (r: Result<SandboxPlan, String>)
    ensures
        is_sandbox_plan(r, download_plan_of(params@)),
{
    let url = match params.str_field("url") {
        Some(u) => u,
        None => {
            return Err(missing("url"));
        },
    };
    let name = match params.str_field("name") {
        Some(n) => n.to_owned(),
        None => {
            let pieces = text::split(url, '/');
            proof {
                text::lemma_split_nonempty(url@, '/');
                assert(text::views(pieces@).len() == pieces@.len());
            }
            let last = pieces[pieces.len() - 1].as_str();
            if last.is_empty() {
                "download".to_owned()
            } else {
                last.to_owned()
            }
        },
    };
    match sandbox::leads_out("downloads", name.as_str()) {
        Some(e) => Err(e),
        None => Ok(SandboxPlan::Download { url: url.to_owned(), target: name }),
    }
}

/// Plans the use of a tool of the sandbox.
pub fn plan_sandbox_tool(backend: &Option<Backend>, tool: &str, params: &Json) -> (r: Result<
    SandboxPlan,
    String,
>)
    ensures
        is_sandbox_plan(r, sandbox_plan_of(*backend, tool@, params@)),
{
    let b = match backend {
        Some(b) => b,
        None => {
            return Err("沙箱未就绪".to_owned());
        },
    };
    if text::same(tool, "sandbox_status") {
        let mut s = "沙箱就绪: 后端=".to_owned();
        s.append(b.name());
        s.append(" 根目录=");
        s.append(b.root());
        Ok(SandboxPlan::Reply(s))
    } else if text::same(tool, "sandbox_read_file") {
        plan_read(params)
    } else if text::same(tool, "sandbox_write_file") {
        plan_write(params)
    } else if text::same(tool, "sandbox_list_dir") {
        plan_list(params)
    } else if text::same(tool, "sandbox_run_cmd") {
        plan_run(params)
    } else if text::same(tool, "sandbox_download_qq_file") {
        plan_fetch(params)
    } else if text::same(tool, "sandbox_send_file") {
        plan_send(params)
    } else if text::same(tool, "sandbox_download_url") {
        plan_download(params)
    } else {
        let mut e = "未知沙箱工具: ".to_owned();
        e.append(tool);
        Err(e)
    }
}

/// The report of a file that was read.
pub fn read_report(content: &str) -> (r: String)
    ensures
        r@ == text::truncate_of(content@, 4000),
{
    text::truncate(content, 4000)
}

/// The report of a command that was run.
pub fn run_report(out: &CmdOutput) -> (r: String)
    ensures
        r@ == sandbox::summary_of(*out, 2000),
{
    out.summary(2000)
}

/// The entries of a directory as they are shown, directories with a slash.
pub open spec fn entry_names(entries: Seq<(String, bool)>) -> Seq<Seq<char>> {
    entries.map_values(
        |e: (String, bool)|
            if e.1 {
                e.0@ + "/"@
            } else {
                e.0@
            },
    )
}

pub open spec fn list_report_of(entries: Seq<(String, bool)>) -> Seq<char> {
    if entries.len() == 0 {
        "(空目录)"@
    } else {
        number::dec(entries.len() as int) + " 项: "@ + text::join_of(entry_names(entries), " "@)
    }
}

/// The report of a directory: each entry with whether it is a directory itself.
pub fn list_report(entries: &Vec<(String, bool)>) -> (r: String)
    ensures
        r@ == list_report_of(entries@),
{
    if entries.len() == 0 {
        return "(空目录)".to_owned();
    }
    let mut names: Vec<String> = Vec::new();
    let mut i: usize = 0;
    while i < entries.len()
        invariant
            i <= entries@.len(),
            names@.len() == i,
            forall|k: int| 0 <= k < i ==> (#[trigger] names@[k])@ == entry_names(entries@)[k],
        decreases entries@.len() - i,
    {
        let mut n = entries[i].0.clone();
        if entries[i].1 {
            n.append("/");
        }
        names.push(n);
        i += 1;
    }
    assert(text::views(names@) =~= entry_names(entries@));
    let mut s = number::usize_text(entries.len());
    s.append(" 项: ");
    s.append(text::join(&names, " ").as_str());
    s
}

/// Where NapCat has put a file.
pub open spec fn fetched_path_of(answer: JsonView) -> Option<Seq<char>> {
    match str_at(answer, "file"@) {
        Some(p) => Some(p),
        None => str_at(answer, "path"@),
    }
}

pub fn fetched_path(answer: &Json) -> (r: Result<String, String>)
    ensures
        match fetched_path_of(answer@) {
            Some(p) => r matches Ok(x) && x@ == p,
            None => r matches Err(e) && e@ == "get_file 未返回文件路径"@,
        },
{
    if let Some(p) = answer.str_field("file") {
        return Ok(p.to_owned());
    }
    match answer.str_field("path") {
        Some(p) => Ok(p.to_owned()),
        None => Err("get_file 未返回文件路径".to_owned()),
    }
}

/// Why a file that NapCat names cannot be copied.
pub fn absent_here(path: &str) -> (r: String)
    ensures
        r@ == "文件不存在于本机: "@ + path@ + "(NapCat 与 LightBot 需在同一台机器)"@,
{
    let mut s = "文件不存在于本机: ".to_owned();
    s.append(path);
    s.append("(NapCat 与 LightBot 需在同一台机器)");
    s
}

/// The report of a file put among the downloads.
pub fn download_report(name: &str) -> (r: String)
    ensures
        r@ == "已下载到沙箱: downloads/"@ + name@,
{
    let mut s = "已下载到沙箱: downloads/".to_owned();
    s.append(name);
    s
}

pub open spec fn send_file_of(target_type: Seq<char>, target_id: i64, file: Seq<char>, name: Seq<char>) -> Result<
    QqPlanView,
    Seq<char>,
> {
    if target_type == "group"@ {
        Ok(
            qq_plan_view(
                "upload_group_file"@,
                seq![
                    ("group_id"@, PartView::Int(target_id)),
                    ("file"@, PartView::Text(file)),
                    ("name"@, PartView::Text(name)),
                ],
                ReportView::Text("已发送到群 "@ + number::dec(target_id as int) + ": "@ + name),
            ),
        )
    } else if target_type == "private"@ {
        Ok(
            qq_plan_view(
                "upload_private_file"@,
                seq![
                    ("user_id"@, PartView::Int(target_id)),
                    ("file"@, PartView::Text(file)),
                    ("name"@, PartView::Text(name)),
                ],
                ReportView::Text("已私聊发送给 "@ + number::dec(target_id as int) + ": "@ + name),
            ),
        )
    } else {
        Err("target_type 必须为 group 或 private,得到: "@ + target_type)
    }
}

/// Plans the sending of a file of the sandbox, which lies at `file`.
pub fn plan_send_file(target_type: &str, target_id: i64, file: &str, name: &str) -> (r: Result<
    QqPlan,
    String,
>)
    ensures
        is_qq_plan(r, send_file_of(target_type@, target_id, file@, name@)),
{
    if text::same(target_type, "group") {
        let mut s = "已发送到群 ".to_owned();
        s.append(number::i64_text(target_id).as_str());
        s.append(": ");
        s.append(name);
        Ok(
            qq_plan(
                "upload_group_file",
                params3(
                    "group_id",
                    Part::Int(target_id),
                    "file",
                    Part::Text(file.to_owned()),
                    "name",
                    Part::Text(name.to_owned()),
                ),
                Report::Text(s),
            ),
        )
    } else if text::same(target_type, "private") {
        let mut s = "已私聊发送给 ".to_owned();
        s.append(number::i64_text(target_id).as_str());
        s.append(": ");
        s.append(name);
        Ok(
            qq_plan(
                "upload_private_file",
                params3(
                    "user_id",
                    Part::Int(target_id),
                    "file",
                    Part::Text(file.to_owned()),
                    "name",
                    Part::Text(name.to_owned()),
                ),
                Report::Text(s),
            ),
        )
    } else {
        let mut e = "target_type 必须为 group 或 private,得到: ".to_owned();
        e.append(target_type);
        Err(e)
    }
}

// ---------- laws ----------

/// A message to a group for a group's task goes to that very group, and a private
/// message for a private task to its sender.
pub proof fn law_messages_stay_home(origin: OriginInfo, params: JsonView)
    ensures
        match group_msg_plan_of(origin, params) {
            Ok(p) => origin.kind == MsgKind::Group ==> origin.group_id is Some && p.call.params[0] == (
                "group_id"@,
                PartView::Int(origin.group_id->0),
            ),
            Err(_) => true,
        },
        match private_msg_plan_of(origin, params) {
            Ok(p) => origin.kind == MsgKind::Private ==> p.call.params[0] == (
                "user_id"@,
                PartView::Int(origin.user_id),
            ),
            Err(_) => true,
        },
{
}

/// Every file that a tool of the sandbox touches by a path or a name of the model's lies
/// below the root.
pub proof fn law_plans_stay_inside(backend: Option<Backend>, tool: Seq<char>, params: JsonView)
    ensures
        match sandbox_plan_of(backend, tool, params) {
            Ok(SandboxPlanView::Read { path }) => sandbox::path_end(path) is Inside,
            Ok(SandboxPlanView::Write { path, .. }) => sandbox::path_end(path) is Inside,
            Ok(SandboxPlanView::List { dir: Some(path) }) => sandbox::path_end(path) is Inside,
            Ok(SandboxPlanView::SendFile { path, .. }) => sandbox::path_end(path) is Inside,
            Ok(SandboxPlanView::Download { target, .. }) => {
                let name = text::replace_char_of(target, '\\', '/');
                &&& name.len() > 0 ==> name[0] != '/'
                &&& !sandbox::begins_with_drive(name)
                &&& sandbox::walk_of(text::split_of("downloads"@ + "/"@ + name, '/')) is Some
            },
            _ => true,
        },
{
}

/// A parameter of an action is the member of the same name in the call of the tool, as
/// that kind of value. Only where the call has no such member does a default stand in:
/// no time for a ban, an empty card, a plain name for a file, ten messages; and the
/// number of messages is brought between one and fifty.
pub open spec fn is_given(call: JsonView, p: (Seq<char>, PartView)) -> bool {
    let x = json::field(call, p.0);
    match p.1 {
        PartView::Int(n) => if p.0 == "count"@ {
            match json::i64_of(x) {
                Some(c) => 1 <= n <= 50 && (1 <= c <= 50 ==> n == c) && (c < 1 ==> n == 1) && (c > 50 ==> n
                    == 50),
                None => n == 10,
            }
        } else if p.0 == "duration"@ && json::i64_of(x) is None {
            n == 0
        } else {
            json::i64_of(x) == Some(n)
        },
        PartView::Bool(b) => json::bool_of(x) == Some(b),
        PartView::Text(s) => match json::str_of(x) {
            Some(t) => s == t,
            None => (p.0 == "card"@ && s == ""@) || (p.0 == "name"@ && s == "file"@),
        },
        PartView::Value(j) => j == x && !(x is Null),
    }
}

/// An action has a parameter of this name.
pub open spec fn carries(c: ActionCallView, key: Seq<char>) -> bool {
    exists|i: int| 0 <= i < c.params.len() && (#[trigger] c.params[i]).0 == key
}

/// The names of the parameters that the tools of QQ take, as their users know them;
/// those that may be left out and are then not sent are not among them.
pub open spec fn parameters_of(tool: Seq<char>) -> Seq<Seq<char>> {
    if tool == "send_group_msg"@ {
        seq!["group_id"@, "message"@]
    } else if tool == "send_private_msg"@ {
        seq!["user_id"@, "message"@]
    } else if tool == "set_essence_msg"@ {
        seq!["message_id"@]
    } else if tool == "set_friend_remark"@ {
        seq!["user_id"@, "remark"@]
    } else if tool == "set_group_card"@ {
        seq!["group_id"@, "user_id"@, "card"@]
    } else if tool == "send_group_sign"@ {
        seq!["group_id"@]
    } else if tool == "get_msg"@ {
        seq!["message_id"@]
    } else if tool == "get_group_msg_history"@ {
        seq!["group_id"@, "count"@]
    } else if tool == "get_group_member_info"@ {
        seq!["group_id"@, "user_id"@]
    } else if tool == "send_poke"@ {
        seq!["user_id"@]
    } else if tool == "upload_group_file"@ {
        seq!["group_id"@, "file"@, "name"@]
    } else if tool == "get_file"@ {
        seq!["file_id"@]
    } else if tool == "delete_msg"@ {
        seq!["message_id"@]
    } else if tool == "set_group_ban"@ {
        seq!["group_id"@, "user_id"@, "duration"@]
    } else if tool == "set_group_whole_ban"@ {
        seq!["group_id"@, "enable"@]
    } else if tool == "set_group_kick"@ {
        seq!["group_id"@, "user_id"@]
    } else {
        Seq::<Seq<char>>::empty()
    }
}

/// The call of a tool holds what a parameter needs.
pub open spec fn is_there(call: JsonView, key: Seq<char>) -> bool {
    let x = json::field(call, key);
    if key == "message"@ {
        !(x is Null)
    } else if key == "remark"@ || key == "file"@ || key == "file_id"@ {
        json::str_of(x) is Some
    } else if key == "enable"@ {
        json::bool_of(x) is Some
    } else if key == "card"@ || key == "name"@ || key == "count"@ || key == "duration"@ {
        true
    } else {
        json::i64_of(x) is Some
    }
}

proof fn lemma_parameter_names()
    ensures
        "group_id"@ != "message"@,
        "user_id"@ != "message"@,
        "user_id"@ != "remark"@,
        "group_id"@ != "user_id"@,
        "group_id"@ != "card"@,
        "user_id"@ != "card"@,
        "group_id"@ != "count"@,
        "group_id"@ != "file"@,
        "group_id"@ != "name"@,
        "file"@ != "name"@,
        "group_id"@ != "duration"@,
        "user_id"@ != "duration"@,
        "group_id"@ != "enable"@,
        "group_id"@ != "reject_add_request"@,
        "user_id"@ != "reject_add_request"@,
        "user_id"@ != "count"@,
        "message_id"@ != "message"@,
        "message_id"@ != "duration"@,
        "message_id"@ != "count"@,
        "message_id"@ != "file_id"@,
        "group_id"@ != "file_id"@,
        "user_id"@ != "file_id"@,
        "user_id"@ != "file"@,
        "user_id"@ != "name"@,
        "user_id"@ != "enable"@,
        "group_id"@ != "remark"@,
        "message_id"@ != "remark"@,
        "message_id"@ != "file"@,
        "message_id"@ != "enable"@,
        "message_id"@ != "card"@,
        "message_id"@ != "name"@,
        "file_id"@ != "message"@,
        "file_id"@ != "remark"@,
        "file"@ != "message"@,
        "file"@ != "remark"@,
        "remark"@ != "message"@,
        "enable"@ != "message"@,
        "enable"@ != "remark"@,
        "enable"@ != "file"@,
        "enable"@ != "file_id"@,
        "card"@ != "message"@,
        "card"@ != "remark"@,
        "card"@ != "file"@,
        "card"@ != "file_id"@,
        "card"@ != "enable"@,
        "name"@ != "message"@,
        "name"@ != "remark"@,
        "name"@ != "file_id"@,
        "name"@ != "enable"@,
        "count"@ != "message"@,
        "count"@ != "remark"@,
        "count"@ != "file"@,
        "count"@ != "file_id"@,
        "count"@ != "enable"@,
        "duration"@ != "message"@,
        "duration"@ != "remark"@,
        "duration"@ != "file"@,
        "duration"@ != "file_id"@,
        "duration"@ != "enable"@,
        "duration"@ != "count"@,
        "card"@ != "name"@,
{
    reveal_strlit("group_id");
    reveal_strlit("user_id");
    reveal_strlit("message");
    reveal_strlit("message_id");
    reveal_strlit("remark");
    reveal_strlit("card");
    reveal_strlit("count");
    reveal_strlit("file");
    reveal_strlit("file_id");
    reveal_strlit("name");
    reveal_strlit("duration");
    reveal_strlit("enable");
    reveal_strlit("reject_add_request");
    assert("group_id"@.len() == 8 && "group_id"@[0] == 'g');
    assert("user_id"@.len() == 7 && "user_id"@[0] == 'u');
    assert("message"@.len() == 7 && "message"@[0] == 'm');
    assert("message_id"@.len() == 10);
    assert("remark"@.len() == 6 && "remark"@[0] == 'r');
    assert("card"@.len() == 4 && "card"@[0] == 'c');
    assert("count"@.len() == 5);
    assert("file"@.len() == 4 && "file"@[0] == 'f');
    assert("file_id"@.len() == 7 && "file_id"@[0] == 'f');
    assert("name"@.len() == 4 && "name"@[0] == 'n');
    assert("duration"@.len() == 8 && "duration"@[0] == 'd');
    assert("enable"@.len() == 6 && "enable"@[0] == 'e');
    assert("reject_add_request"@.len() == 18);
}

/// What an approved call of a tool of QQ asks for is what is done: the action is the tool
/// of that name, each of its parameters is the member of the same name in the call, none
/// of those it takes is missing, and none is there twice.
pub proof fn law_actions_carry_the_call(origin: OriginInfo, tool: Seq<char>, params: JsonView)
    ensures
        match qq_plan_of(origin, tool, params) {
            Ok(p) => {
                &&& p.call.action == tool
                &&& forall|i: int|
                    0 <= i < p.call.params.len() ==> is_given(params, #[trigger] p.call.params[i])
                &&& forall|k: int|
                    0 <= k < parameters_of(tool).len() ==> carries(
                        p.call,
                        #[trigger] parameters_of(tool)[k],
                    )
                &&& parameters_of(tool).len() > 0
                &&& forall|i: int, j: int|
                    0 <= i < j < p.call.params.len() ==> (#[trigger] p.call.params[i]).0 != (
                    #[trigger] p.call.params[j]).0
            },
            Err(_) => true,
        },
{
    lemma_parameter_names();
    if let Ok(p) = qq_plan_of(origin, tool, params) {
        let names = parameters_of(tool);
        assert forall|k: int| 0 <= k < names.len() implies carries(p.call, #[trigger] names[k]) by {
            assert(p.call.params[k].0 == names[k]);
        }
    }
}

/// A call of a tool of QQ is turned down only where something that it takes is missing,
/// where there is no such tool, or where a message would go elsewhere than to where the
/// task came from; and then it is turned down.
pub proof fn law_complete_calls_are_planned(origin: OriginInfo, tool: Seq<char>, params: JsonView)
    ensures
        ({
            let astray = (tool == "send_group_msg"@ && origin.kind == MsgKind::Group && json::i64_of(
                json::field(params, "group_id"@),
            ) != origin.group_id) || (tool == "send_private_msg"@ && origin.kind == MsgKind::Private
                && json::i64_of(json::field(params, "user_id"@)) != Some(origin.user_id));
            qq_plan_of(origin, tool, params) is Ok <==> (parameters_of(tool).len() > 0 && !astray && forall|
                k: int,
            |
                0 <= k < parameters_of(tool).len() ==> is_there(params, #[trigger] parameters_of(tool)[k]))
        }),
{
    lemma_parameter_names();
    let names = parameters_of(tool);
    reveal_strlit("send_group_msg");
    reveal_strlit("send_private_msg");
    assert("send_group_msg"@.len() == 14 && "send_private_msg"@.len() == 16);
    assert(names.len() <= 3);
    if qq_plan_of(origin, tool, params) is Ok {
        assert forall|k: int| 0 <= k < names.len() implies is_there(params, #[trigger] names[k]) by {
            assert(k == 0 || k == 1 || k == 2);
        }
    } else if names.len() > 0 && forall|k: int|
        0 <= k < names.len() ==> is_there(params, #[trigger] names[k]) {
        assert(is_there(params, names[0]));
        if names.len() > 1 {
            assert(is_there(params, names[1]));
        }
        if names.len() > 2 {
            assert(is_there(params, names[2]));
        }
    }
}

/// What may be left out is sent exactly where it was given: the group of a poke, and
/// whether someone who was put out may come back.
pub proof fn law_optional_parameters_are_passed_on(origin: OriginInfo, params: JsonView)
    ensures
        match qq_plan_of(origin, "send_poke"@, params) {
            Ok(p) => carries(p.call, "group_id"@) <==> json::i64_of(json::field(params, "group_id"@)) is Some,
            Err(_) => json::i64_of(json::field(params, "user_id"@)) is None,
        },
        match qq_plan_of(origin, "set_group_kick"@, params) {
            Ok(p) => carries(p.call, "reject_add_request"@) <==> json::bool_of(
                json::field(params, "reject_add_request"@),
            ) is Some,
            Err(_) => true,
        },
{
    lemma_parameter_names();
    lemma_tool_names();
    if let Ok(p) = qq_plan_of(origin, "send_poke"@, params) {
        if let Some(g) = int_at(params, "group_id"@) {
            assert(p.call.params[1].0 == "group_id"@);
        }
    }
    if let Ok(p) = qq_plan_of(origin, "set_group_kick"@, params) {
        if let Some(b) = bool_at(params, "reject_add_request"@) {
            assert(p.call.params[2].0 == "reject_add_request"@);
        }
    }
}

proof fn lemma_tool_names()
    ensures
        forall|origin: OriginInfo, params: JsonView|
            #[trigger] qq_plan_of(origin, "send_poke"@, params) == poke_plan_of(params),
        forall|origin: OriginInfo, params: JsonView|
            #[trigger] qq_plan_of(origin, "set_group_kick"@, params) == kick_plan_of(params),
        forall|origin: OriginInfo, params: JsonView|
            #[trigger] qq_plan_of(origin, "set_group_ban"@, params) == ban_plan_of(params),
        forall|origin: OriginInfo, params: JsonView|
            #[trigger] qq_plan_of(origin, "set_group_whole_ban"@, params) == whole_ban_plan_of(params),
{
    reveal_strlit("send_group_msg");
    reveal_strlit("send_private_msg");
    reveal_strlit("set_essence_msg");
    reveal_strlit("set_friend_remark");
    reveal_strlit("set_group_card");
    reveal_strlit("send_group_sign");
    reveal_strlit("get_msg");
    reveal_strlit("get_group_msg_history");
    reveal_strlit("get_group_member_info");
    reveal_strlit("send_poke");
    reveal_strlit("upload_group_file");
    reveal_strlit("get_file");
    reveal_strlit("delete_msg");
    reveal_strlit("set_group_ban");
    reveal_strlit("set_group_whole_ban");
    reveal_strlit("set_group_kick");
    assert("send_group_msg"@.len() == 14 && "send_group_msg"@[2] == 'n');
    assert("send_private_msg"@.len() == 16);
    assert("set_essence_msg"@.len() == 15);
    assert("set_friend_remark"@.len() == 17);
    assert("set_group_card"@.len() == 14 && "set_group_card"@[10] == 'c' && "set_group_card"@[2] == 't');
    assert("send_group_sign"@.len() == 15);
    assert("get_msg"@.len() == 7);
    assert("get_group_msg_history"@.len() == 21);
    assert("get_group_member_info"@.len() == 21);
    assert("send_poke"@.len() == 9);
    assert("upload_group_file"@.len() == 17);
    assert("get_file"@.len() == 8);
    assert("delete_msg"@.len() == 10);
    assert("set_group_ban"@.len() == 13);
    assert("set_group_whole_ban"@.len() == 19);
    assert("set_group_kick"@.len() == 14 && "set_group_kick"@[10] == 'k' && "set_group_kick"@[2] == 't');
}

/// A ban lasts as long as the call says and is told as such: the action mutes exactly
/// where a time other than none is asked for, and the report says that it was lifted
/// exactly where the action lifts it, and else names the time that the action carries.
pub proof fn law_ban_is_as_told(origin: OriginInfo, params: JsonView, d: i64)
    requires
        json::i64_of(json::field(params, "group_id"@)) is Some,
        json::i64_of(json::field(params, "user_id"@)) is Some,
        json::i64_of(json::field(params, "duration"@)) == Some(d),
    ensures
        match qq_plan_of(origin, "set_group_ban"@, params) {
            Ok(p) => {
                &&& p.call.params.contains(("duration"@, PartView::Int(d)))
                &&& p.call.params.contains(
                    ("user_id"@, PartView::Int(json::i64_of(json::field(params, "user_id"@))->0)),
                )
                &&& p.call.params.contains(
                    ("group_id"@, PartView::Int(json::i64_of(json::field(params, "group_id"@))->0)),
                )
                &&& p.report matches ReportView::Text(told) && (d == 0 <==> text::begins(told, "已解除 "@)) && (d
                    != 0 ==> text::includes(told, " "@ + number::dec(d as int) + " 秒"@))
            },
            Err(_) => false,
        },
{
    lemma_tool_names();
    reveal_strlit("已解除 ");
    reveal_strlit("已禁言 ");
    let uid = int_at(params, "user_id"@)->0;
    let p = ban_plan_of(params)->Ok_0;
    assert(p.call.params[0] == ("group_id"@, PartView::Int(int_at(params, "group_id"@)->0)));
    assert(p.call.params[1] == ("user_id"@, PartView::Int(uid)));
    assert(p.call.params[2] == ("duration"@, PartView::Int(d)));
    let told = p.report->Text_0;
    if d == 0 {
        assert(told.take(4) =~= "已解除 "@);
    } else {
        assert(told[1] == '禁');
        assert("已解除 "@[1] == '解');
        if text::begins(told, "已解除 "@) {
            assert(told.take(4)[1] == told[1]);
        }
        let head = "已禁言 "@ + number::dec(uid as int);
        let tail = " "@ + number::dec(d as int) + " 秒"@;
        assert(told =~= head + tail);
        assert(told.subrange(head.len() as int, told.len() as int) =~= tail);
        assert(text::occurs_at(told, tail, head.len() as int));
    }
}

/// Silence for the whole group is told as it is set.
pub proof fn law_whole_ban_is_as_told(origin: OriginInfo, params: JsonView, enable: bool)
    requires
        json::i64_of(json::field(params, "group_id"@)) is Some,
        json::bool_of(json::field(params, "enable"@)) == Some(enable),
    ensures
        match qq_plan_of(origin, "set_group_whole_ban"@, params) {
            Ok(p) => p.call.params.contains(("enable"@, PartView::Bool(enable))) && p.report == ReportView::Text(
                if enable {
                    "已全体禁言"@
                } else {
                    "已解除全体禁言"@
                },
            ),
            Err(_) => false,
        },
{
    lemma_tool_names();
    let p = whole_ban_plan_of(params)->Ok_0;
    assert(p.call.params[1] == ("enable"@, PartView::Bool(enable)));
}

/// What is reported of an action names what it touched: the number of the person, of the
/// group or of the message that the action carries.
pub proof fn law_reports_name_what_was_touched(params: JsonView)
    ensures
        match kick_plan_of(params) {
            Ok(p) => p.report == ReportView::Text(
                "已将 "@ + number::dec(json::i64_of(json::field(params, "user_id"@))->0 as int) + " 移出群 "@
                    + number::dec(json::i64_of(json::field(params, "group_id"@))->0 as int),
            ),
            Err(_) => true,
        },
        match poke_plan_of(params) {
            Ok(p) => p.report == ReportView::Text(
                "已戳 "@ + number::dec(json::i64_of(json::field(params, "user_id"@))->0 as int),
            ),
            Err(_) => true,
        },
        match delete_plan_of(params) {
            Ok(p) => p.report == ReportView::Text(
                "已撤回消息 "@ + number::dec(json::i64_of(json::field(params, "message_id"@))->0 as int),
            ),
            Err(_) => true,
        },
        match sign_plan_of(params) {
            Ok(p) => p.report == ReportView::Text(
                "群 "@ + number::dec(json::i64_of(json::field(params, "group_id"@))->0 as int) + " 打卡成功"@,
            ),
            Err(_) => true,
        },
        match remark_plan_of(params) {
            Ok(p) => p.report == ReportView::Text(
                "已将好友 "@ + number::dec(json::i64_of(json::field(params, "user_id"@))->0 as int) + " 备注改为「"@
                    + json::str_of(json::field(params, "remark"@))->0 + "」"@,
            ),
            Err(_) => true,
        },
        match history_plan_of(params) {
            Ok(p) => p.report matches ReportView::History(n) && p.call.params.contains(
                ("count"@, PartView::Int(n as i64)),
            ),
            Err(_) => true,
        },
{
    if let Ok(p) = history_plan_of(params) {
        assert(p.call.params[1] == ("count"@, PartView::Int(history_count_of(params))));
    }
}

/// The newest messages of a history are all told, the newest first, as many as were asked
/// for or as there are.
pub proof fn law_history_is_told_newest_first(answer: JsonView, count: u32, msgs: Seq<JsonView>)
    requires
        json::field(answer, "messages"@) == JsonView::Array(msgs),
        msgs.len() > 0,
    ensures
        ({
            let n = if count <= msgs.len() {
                count as nat
            } else {
                msgs.len()
            };
            report_of(ReportView::History(count), answer) == text::trim_of(
                text::join_of(Seq::new(n, |k: int| history_line(msgs[msgs.len() - 1 - k])), Seq::<char>::empty()),
            )
        }),
{
    let n = if count <= msgs.len() {
        count as nat
    } else {
        msgs.len()
    };
    lemma_history_lines(msgs, n);
}

proof fn lemma_history_lines(msgs: Seq<JsonView>, n: nat)
    requires
        n <= msgs.len(),
    ensures
        history_lines(msgs, n as int) == text::join_of(
            Seq::new(n, |k: int| history_line(msgs[msgs.len() - 1 - k])),
            Seq::<char>::empty(),
        ),
    decreases n,
{
    let lines = Seq::new(n, |k: int| history_line(msgs[msgs.len() - 1 - k]));
    if n > 0 {
        let m = (n - 1) as nat;
        lemma_history_lines(msgs, m);
        assert(lines.drop_last() =~= Seq::new(m, |k: int| history_line(msgs[msgs.len() - 1 - k])));
        assert(lines.last() == history_line(msgs[msgs.len() - n]));
        if n == 1 {
            assert(history_lines(msgs, 1) =~= lines[0]);
        } else {
            assert(history_lines(msgs, n as int) =~= text::join_of(lines.drop_last(), Seq::<char>::empty())
                + Seq::<char>::empty() + lines.last());
        }
    } else {
        assert(history_lines(msgs, 0) =~= text::join_of(lines, Seq::<char>::empty()));
    }
}

/// A message of a history is told with the account that it came from.
pub proof fn law_history_line_names_its_sender(m: JsonView, uid: i64)
    requires
        json::i64_of(json::field(m, "user_id"@)) == Some(uid),
    ensures
        text::begins(history_line(m), "[QQ"@ + number::dec(uid as int) + "] "@),
        text::ends(history_line(m), "\n"@),
{
    let head = "[QQ"@ + number::dec(uid as int) + "] "@;
    let line = history_line(m);
    assert(line.take(head.len() as int) =~= head);
    assert(line.skip(line.len() - "\n"@.len()) =~= "\n"@);
}

/// An answer is reported as it is: its id where it has one to tell, or all of it.
pub proof fn law_answers_are_reported(s: Seq<char>, answer: JsonView)
    ensures
        report_of(ReportView::Text(s), answer) == s,
        report_of(ReportView::Raw, answer) == json::json_text(answer),
        text::ends(
            report_of(ReportView::MessageId, answer),
            json::json_text(json::field(answer, "message_id"@)),
        ),
        text::begins(report_of(ReportView::MessageId, answer), "已发送,message_id="@),
{
    let r = report_of(ReportView::MessageId, answer);
    let id = json::json_text(json::field(answer, "message_id"@));
    let head = "已发送,message_id="@;
    assert(r.skip(r.len() - id.len()) =~= id);
    assert(r.take(head.len() as int) =~= head);
}

/// What an approved call of a tool of the sandbox asks for is what is done: each plan is
/// that of the tool which does such a thing, with the path, the contents, the command,
/// its arguments, the address and the names that the call gives.
pub proof fn law_sandbox_plans_carry_the_call(backend: Option<Backend>, tool: Seq<char>, params: JsonView)
    ensures
        match sandbox_plan_of(backend, tool, params) {
            Ok(plan) => backend is Some && match plan {
                SandboxPlanView::Reply(s) => tool == "sandbox_status"@,
                SandboxPlanView::Read { path } => tool == "sandbox_read_file"@ && json::str_of(
                    json::field(params, "path"@),
                ) == Some(path),
                SandboxPlanView::Write { path, content, report } => {
                    &&& tool == "sandbox_write_file"@
                    &&& json::str_of(json::field(params, "path"@)) == Some(path)
                    &&& match json::str_of(json::field(params, "content"@)) {
                        Some(c) => content == c,
                        None => content == ""@,
                    }
                    &&& report == "已写入 "@ + path + "("@ + number::dec(content.len() as int) + " 字符)"@
                },
                SandboxPlanView::List { dir } => tool == "sandbox_list_dir"@ && match dir {
                    Some(path) => json::str_of(json::field(params, "path"@)) == Some(path) && text::trim_of(
                        path,
                    ).len() > 0,
                    None => json::str_of(json::field(params, "path"@)) is None || text::trim_of(
                        json::str_of(json::field(params, "path"@))->0,
                    ).len() == 0,
                },
                SandboxPlanView::Run { cmd, args } => {
                    &&& tool == "sandbox_run_cmd"@
                    &&& json::str_of(json::field(params, "cmd"@)) == Some(cmd)
                    &&& args == json::texts_of(json::elements(json::field(params, "args"@)))
                },
                SandboxPlanView::FetchFile { call } => {
                    &&& tool == "sandbox_download_qq_file"@
                    &&& call.action == "get_file"@
                    &&& call.params.len() == 1
                    &&& call.params[0].0 == "file_id"@
                    &&& call.params[0].1 matches PartView::Text(id) && json::str_of(
                        json::field(params, "file_id"@),
                    ) == Some(id)
                },
                SandboxPlanView::SendFile { target_type, target_id, path, name } => {
                    &&& tool == "sandbox_send_file"@
                    &&& json::str_of(json::field(params, "target_type"@)) == Some(target_type)
                    &&& json::i64_of(json::field(params, "target_id"@)) == Some(target_id)
                    &&& json::str_of(json::field(params, "path"@)) == Some(path)
                    &&& json::str_of(json::field(params, "name"@)) == name
                },
                SandboxPlanView::Download { url, target } => {
                    &&& tool == "sandbox_download_url"@
                    &&& json::str_of(json::field(params, "url"@)) == Some(url)
                    &&& json::str_of(json::field(params, "name"@)) matches Some(n) ==> target == n
                },
            },
            Err(_) => true,
        },
{
}

/// Without a name of its own a download is kept under the end of its address: what stands
/// behind the last slash, or a plain name where nothing does.
pub proof fn law_download_is_named_by_its_address(params: JsonView, url: Seq<char>)
    requires
        json::str_of(json::field(params, "name"@)) is None,
    ensures
        ({
            let name = download_name_of(params, url);
            &&& name == "download"@ && (url.len() == 0 || url.last() == '/') || (name.len() > 0 && text::ends(
                url,
                name,
            ) && (forall|i: int| 0 <= i < name.len() ==> #[trigger] name[i] != '/') && (name.len() == url.len()
                || url[url.len() - name.len() - 1] == '/'))
        }),
{
    lemma_last_piece(url, '/');
    text::lemma_split_pieces(url, '/');
    text::lemma_split_nonempty(url, '/');
    let pieces = text::split_of(url, '/');
    let last = pieces[pieces.len() - 1];
    assert(last == pieces.last());
    assert forall|i: int| 0 <= i < last.len() implies #[trigger] last[i] != '/' by {
        assert(pieces[pieces.len() - 1][i] != '/');
    }
}

proof fn lemma_last_piece(s: Seq<char>, sep: char)
    ensures
        ({
            let last = text::split_of(s, sep).last();
            &&& last.len() <= s.len()
            &&& s.skip(s.len() - last.len()) == last
            &&& last.len() < s.len() ==> s[s.len() - last.len() - 1] == sep
        }),
    decreases s.len(),
{
    if s.len() > 0 {
        let init = s.drop_last();
        lemma_last_piece(init, sep);
        text::lemma_split_nonempty(init, sep);
        let before = text::split_of(init, sep).last();
        let last = text::split_of(s, sep).last();
        if s.last() == sep {
            assert(s.skip(s.len() as int) =~= last);
        } else {
            assert(last == before.push(s.last()));
            assert(s.skip(s.len() - last.len()) =~= last) by {
                assert forall|i: int| 0 <= i < before.len() implies s[s.len() - last.len() + i] == before[i] by {
                    assert(init.skip(init.len() - before.len())[i] == before[i]);
                }
            }
        }
    } else {
        assert(s.skip(0) =~= text::split_of(s, sep).last());
    }
}

/// A file is sent to where it was asked to go, under the name it was given, and to
/// nowhere else than a group or a person.
pub proof fn law_file_goes_to_its_target(target_type: Seq<char>, target_id: i64, file: Seq<char>, name: Seq<char>)
    ensures
        match send_file_of(target_type, target_id, file, name) {
            Ok(p) => {
                &&& p.call.params.contains(("file"@, PartView::Text(file)))
                &&& p.call.params.contains(("name"@, PartView::Text(name)))
                &&& (target_type == "group"@ && p.call.action == "upload_group_file"@ && p.call.params.contains(
                    ("group_id"@, PartView::Int(target_id)),
                )) || (target_type == "private"@ && p.call.action == "upload_private_file"@
                    && p.call.params.contains(("user_id"@, PartView::Int(target_id))))
                &&& p.report matches ReportView::Text(t) && text::ends(t, number::dec(target_id as int) + ": "@ + name)
            },
            Err(_) => target_type != "group"@ && target_type != "private"@,
        },
{
    if let Ok(p) = send_file_of(target_type, target_id, file, name) {
        assert(p.call.params[1] == ("file"@, PartView::Text(file)));
        assert(p.call.params[2] == ("name"@, PartView::Text(name)));
        assert(p.call.params[0].1 == PartView::Int(target_id));
        assert(p.call.params.contains(p.call.params[0]));
        let t = p.report->Text_0;
        let tail = number::dec(target_id as int) + ": "@ + name;
        assert(t.skip(t.len() - tail.len()) =~= tail);
    }
}

/// A file that NapCat has is looked for where its answer says, by either name.
pub proof fn law_fetched_file_is_where_it_was_said(answer: JsonView)
    ensures
        match fetched_path_of(answer) {
            Some(p) => json::str_of(json::field(answer, "file"@)) == Some(p) || (json::str_of(
                json::field(answer, "file"@),
            ) is None && json::str_of(json::field(answer, "path"@)) == Some(p)),
            None => json::str_of(json::field(answer, "file"@)) is None && json::str_of(
                json::field(answer, "path"@),
            ) is None,
        },
{
}

/// A directory is told with the number of its entries and each of them by its name,
/// a directory with a slash behind it.
pub proof fn law_directory_is_told_entry_by_entry(entries: Seq<(String, bool)>, i: int)
    requires
        0 <= i < entries.len(),
    ensures
        text::begins(list_report_of(entries), number::dec(entries.len() as int) + " 项: "@),
        text::ends(list_report_of(entries), text::join_of(entry_names(entries), " "@)),
        entry_names(entries).len() == entries.len(),
        entries[i].1 ==> entry_names(entries)[i] == entries[i].0@ + "/"@,
        !entries[i].1 ==> entry_names(entries)[i] == entries[i].0@,
{
    let r = list_report_of(entries);
    let head = number::dec(entries.len() as int) + " 项: "@;
    let tail = text::join_of(entry_names(entries), " "@);
    assert(r.take(head.len() as int) =~= head);
    assert(r.skip(r.len() - tail.len()) =~= tail);
}

/// A call without the one parameter that it needs is turned down, and the parameter is
/// named.
pub proof fn law_missing_parameter_is_named(params: JsonView)
    ensures
        !(json::field(params, "message_id"@) is Number) ==> get_msg_plan_of(params) == Err::<QqPlanView, Seq<char>>(
            "缺少 "@ + "message_id"@,
        ) && essence_plan_of(params) == Err::<QqPlanView, Seq<char>>("缺少 "@ + "message_id"@),
        !(json::field(params, "file_id"@) is Str) ==> get_file_plan_of(params) == Err::<QqPlanView, Seq<char>>(
            "缺少 "@ + "file_id"@,
        ) && fetch_plan_of(params) == Err::<SandboxPlanView, Seq<char>>("缺少 "@ + "file_id"@),
{
}

} // verus!
