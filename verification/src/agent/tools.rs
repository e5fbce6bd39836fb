//! The tools of the helper: what there is, what the model is told of it, and what a
//! call comes to.

use vstd::prelude::*;
use vstd::string::*;
use crate::agent::AgentMode;
use crate::json;
use crate::json::{parse_json, Json, JsonView};
use crate::text;

verus! {

// ---------- the catalogue ----------

#[derive(Debug, Clone)]
pub struct ToolDef {
    pub name: &'static str,
    /// One line for the choice of tools.
    pub brief: &'static str,
    /// The parameters in detail, for the use of the tool.
    pub usage: &'static str,
    /// Only for tasks of an owner, an administrator or a trusted account.
    pub sensitive: bool,
}

pub struct ToolView {
    pub name: Seq<char>,
    pub brief: Seq<char>,
    pub usage: Seq<char>,
    pub sensitive: bool,
}

impl View for ToolDef {
    type V = ToolView;

    open spec fn view(&self) -> ToolView {
        ToolView {
            name: self.name@,
            brief: self.brief@,
            usage: self.usage@,
            sensitive: self.sensitive,
        }
    }
}

pub open spec fn tool_views(v: Seq<ToolDef>) -> Seq<ToolView> {
    v.map_values(|t: ToolDef| t@)
}

/// The tools for operations on QQ; the names are those of the actions.
pub open spec fn qq_tools_of() -> Seq<ToolView> {
    seq![
        ToolView {
            name: "send_group_msg"@,
            brief: "向指定群发送消息(文本或图片)"@,
            usage: "参数: group_id(群号数字), message(文本字符串,或消息段数组,如图片 [{\"type\":\"image\",\"data\":{\"file\":\"本地路径或URL\"}}])"@,
            sensitive: false,
        },
        ToolView {
            name: "send_private_msg"@,
            brief: "向指定用户发送私聊消息(文本或图片)"@,
            usage: "参数: user_id(QQ号), message(同 send_group_msg)"@,
            sensitive: false,
        },
        ToolView {
            name: "set_essence_msg"@,
            brief: "把某条消息设置为群精华"@,
            usage: "参数: message_id(消息ID,用 get_msg 或群历史查询获取)"@,
            sensitive: false,
        },
        ToolView {
            name: "set_friend_remark"@,
            brief: "修改好友备注"@,
            usage: "参数: user_id(QQ号), remark(新备注文本)"@,
            sensitive: false,
        },
        ToolView {
            name: "set_group_card"@,
            brief: "修改群成员群名片"@,
            usage: "参数: group_id(群号), user_id(成员QQ), card(新名片,空字符串=清除)"@,
            sensitive: false,
        },
        ToolView {
            name: "send_group_sign"@,
            brief: "群打卡(每日签到)"@,
            usage: "参数: group_id(群号)"@,
            sensitive: false,
        },
        ToolView {
            name: "get_msg"@,
            brief: "按消息ID获取消息内容"@,
            usage: "参数: message_id(消息ID)"@,
            sensitive: false,
        },
        ToolView {
            name: "get_group_msg_history"@,
            brief: "获取群最近消息"@,
            usage: "参数: group_id(群号), count(数量,1~50)"@,
            sensitive: false,
        },
        ToolView {
            name: "get_group_member_info"@,
            brief: "获取群成员信息(角色等)"@,
            usage: "参数: group_id(群号), user_id(QQ号)"@,
            sensitive: false,
        },
        ToolView {
            name: "send_poke"@,
            brief: "戳一戳(群内或好友)"@,
            usage: "参数: user_id(QQ号), group_id(群号,群内戳可填)"@,
            sensitive: false,
        },
        ToolView {
            name: "upload_group_file"@,
            brief: "上传本地文件到群"@,
            usage: "参数: group_id(群号), file(本地绝对路径), name(显示文件名)"@,
            sensitive: false,
        },
        ToolView {
            name: "get_file"@,
            brief: "获取QQ文件/图片的本地路径"@,
            usage: "参数: file_id(消息里的文件ID)"@,
            sensitive: false,
        },
        ToolView {
            name: "delete_msg"@,
            brief: "撤回一条消息"@,
            usage: "参数: message_id(消息ID)"@,
            sensitive: true,
        },
        ToolView {
            name: "set_group_ban"@,
            brief: "禁言群成员"@,
            usage: "参数: group_id(群号), user_id(QQ号), duration(秒,0=解除)"@,
            sensitive: true,
        },
        ToolView {
            name: "set_group_whole_ban"@,
            brief: "全体禁言/解除"@,
            usage: "参数: group_id(群号), enable(true=禁言,false=解除)"@,
            sensitive: true,
        },
        ToolView {
            name: "set_group_kick"@,
            brief: "把成员移出群"@,
            usage: "参数: group_id(群号), user_id(QQ号), reject_add_request(可选,true=同时拉黑)"@,
            sensitive: true,
        },
    ]
}

fn qq_tools() -> (r: Vec<ToolDef>)
    ensures
        tool_views(r@) == qq_tools_of(),
{
    let r: Vec<ToolDef> = vec![
        ToolDef {
            name: "send_group_msg",
            brief: "向指定群发送消息(文本或图片)",
            usage: "参数: group_id(群号数字), message(文本字符串,或消息段数组,如图片 [{\"type\":\"image\",\"data\":{\"file\":\"本地路径或URL\"}}])",
            sensitive: false,
        },
        ToolDef {
            name: "send_private_msg",
            brief: "向指定用户发送私聊消息(文本或图片)",
            usage: "参数: user_id(QQ号), message(同 send_group_msg)",
            sensitive: false,
        },
        ToolDef {
            name: "set_essence_msg",
            brief: "把某条消息设置为群精华",
            usage: "参数: message_id(消息ID,用 get_msg 或群历史查询获取)",
            sensitive: false,
        },
        ToolDef {
            name: "set_friend_remark",
            brief: "修改好友备注",
            usage: "参数: user_id(QQ号), remark(新备注文本)",
            sensitive: false,
        },
        ToolDef {
            name: "set_group_card",
            brief: "修改群成员群名片",
            usage: "参数: group_id(群号), user_id(成员QQ), card(新名片,空字符串=清除)",
            sensitive: false,
        },
        ToolDef {
            name: "send_group_sign",
            brief: "群打卡(每日签到)",
            usage: "参数: group_id(群号)",
            sensitive: false,
        },
        ToolDef {
            name: "get_msg",
            brief: "按消息ID获取消息内容",
            usage: "参数: message_id(消息ID)",
            sensitive: false,
        },
        ToolDef {
            name: "get_group_msg_history",
            brief: "获取群最近消息",
            usage: "参数: group_id(群号), count(数量,1~50)",
            sensitive: false,
        },
        ToolDef {
            name: "get_group_member_info",
            brief: "获取群成员信息(角色等)",
            usage: "参数: group_id(群号), user_id(QQ号)",
            sensitive: false,
        },
        ToolDef {
            name: "send_poke",
            brief: "戳一戳(群内或好友)",
            usage: "参数: user_id(QQ号), group_id(群号,群内戳可填)",
            sensitive: false,
        },
        ToolDef {
            name: "upload_group_file",
            brief: "上传本地文件到群",
            usage: "参数: group_id(群号), file(本地绝对路径), name(显示文件名)",
            sensitive: false,
        },
        ToolDef {
            name: "get_file",
            brief: "获取QQ文件/图片的本地路径",
            usage: "参数: file_id(消息里的文件ID)",
            sensitive: false,
        },
        ToolDef {
            name: "delete_msg",
            brief: "撤回一条消息",
            usage: "参数: message_id(消息ID)",
            sensitive: true,
        },
        ToolDef {
            name: "set_group_ban",
            brief: "禁言群成员",
            usage: "参数: group_id(群号), user_id(QQ号), duration(秒,0=解除)",
            sensitive: true,
        },
        ToolDef {
            name: "set_group_whole_ban",
            brief: "全体禁言/解除",
            usage: "参数: group_id(群号), enable(true=禁言,false=解除)",
            sensitive: true,
        },
        ToolDef {
            name: "set_group_kick",
            brief: "把成员移出群",
            usage: "参数: group_id(群号), user_id(QQ号), reject_add_request(可选,true=同时拉黑)",
            sensitive: true,
        },
    ];
    assert(tool_views(r@) =~= qq_tools_of());
    r
}

/// The tools of the sandbox.
pub open spec fn sandbox_tools_of() -> Seq<ToolView> {
    seq![
        ToolView {
            name: "sandbox_read_file"@,
            brief: "读取沙箱内文件内容"@,
            usage: "参数: path(相对沙箱根的路径,如 work/a.txt)"@,
            sensitive: false,
        },
        ToolView {
            name: "sandbox_write_file"@,
            brief: "写入文件到沙箱"@,
            usage: "参数: path(相对沙箱根), content(内容)"@,
            sensitive: false,
        },
        ToolView {
            name: "sandbox_list_dir"@,
            brief: "列出沙箱内目录"@,
            usage: "参数: path(可选,相对沙箱根,默认根目录)"@,
            sensitive: false,
        },
        ToolView {
            name: "sandbox_run_cmd"@,
            brief: "在沙箱内执行命令"@,
            usage: "参数: cmd(可执行文件名,须在白名单), args(参数数组,可选);工作目录为沙箱 work/"@,
            sensitive: false,
        },
        ToolView {
            name: "sandbox_download_qq_file"@,
            brief: "把QQ上的文件/图片复制进沙箱"@,
            usage: "参数: file_id(QQ消息里的文件/图片ID)"@,
            sensitive: false,
        },
        ToolView {
            name: "sandbox_send_file"@,
            brief: "把沙箱内文件发送到QQ"@,
            usage: "参数: target_type(\"group\"或\"private\"), target_id(群号或QQ号), path(相对沙箱根), name(可选显示名)"@,
            sensitive: false,
        },
        ToolView {
            name: "sandbox_download_url"@,
            brief: "下载网络URL到沙箱"@,
            usage: "参数: url(完整URL), name(可选文件名;docker 后端禁用网络,该工具不可用)"@,
            sensitive: false,
        },
        ToolView {
            name: "sandbox_status"@,
            brief: "查询沙箱状态与根目录"@,
            usage: "无参数"@,
            sensitive: false,
        },
    ]
}

fn sandbox_tools() -> (r: Vec<ToolDef>)
    ensures
        tool_views(r@) == sandbox_tools_of(),
{
    let r: Vec<ToolDef> = vec![
        ToolDef {
            name: "sandbox_read_file",
            brief: "读取沙箱内文件内容",
            usage: "参数: path(相对沙箱根的路径,如 work/a.txt)",
            sensitive: false,
        },
        ToolDef {
            name: "sandbox_write_file",
            brief: "写入文件到沙箱",
            usage: "参数: path(相对沙箱根), content(内容)",
            sensitive: false,
        },
        ToolDef {
            name: "sandbox_list_dir",
            brief: "列出沙箱内目录",
            usage: "参数: path(可选,相对沙箱根,默认根目录)",
            sensitive: false,
        },
        ToolDef {
            name: "sandbox_run_cmd",
            brief: "在沙箱内执行命令",
            usage: "参数: cmd(可执行文件名,须在白名单), args(参数数组,可选);工作目录为沙箱 work/",
            sensitive: false,
        },
        ToolDef {
            name: "sandbox_download_qq_file",
            brief: "把QQ上的文件/图片复制进沙箱",
            usage: "参数: file_id(QQ消息里的文件/图片ID)",
            sensitive: false,
        },
        ToolDef {
            name: "sandbox_send_file",
            brief: "把沙箱内文件发送到QQ",
            usage: "参数: target_type(\"group\"或\"private\"), target_id(群号或QQ号), path(相对沙箱根), name(可选显示名)",
            sensitive: false,
        },
        ToolDef {
            name: "sandbox_download_url",
            brief: "下载网络URL到沙箱",
            usage: "参数: url(完整URL), name(可选文件名;docker 后端禁用网络,该工具不可用)",
            sensitive: false,
        },
        ToolDef {
            name: "sandbox_status",
            brief: "查询沙箱状态与根目录",
            usage: "无参数",
            sensitive: false,
        },
    ];
    assert(tool_views(r@) =~= sandbox_tools_of());
    r
}

/// The tools of a mode.
pub open spec fn catalog_of(mode: AgentMode) -> Seq<ToolView> {
    match mode {
        AgentMode::QqOps => qq_tools_of(),
        AgentMode::Sandbox => sandbox_tools_of(),
    }
}

pub fn catalog(mode: AgentMode) -> (r: Vec<ToolDef>)
    ensures
        tool_views(r@) == catalog_of(mode),
{
    match mode {
        AgentMode::QqOps => qq_tools(),
        AgentMode::Sandbox => sandbox_tools(),
    }
}

/// The first tool with the given name, from position `i` on.
pub open spec fn tool_from(tools: Seq<ToolView>, name: Seq<char>, i: int) -> Option<ToolView>
    decreases tools.len() - i,
{
    if i < 0 || i >= tools.len() {
        None
    } else if tools[i].name == name {
        Some(tools[i])
    } else {
        tool_from(tools, name, i + 1)
    }
}

pub open spec fn tool_of(mode: AgentMode, name: Seq<char>) -> Option<ToolView> {
    tool_from(catalog_of(mode), name, 0)
}

/// The tool of a mode with the given name.
pub fn tool_by_name(mode: AgentMode, name: &str) -> (r: Option<ToolDef>)
    ensures
        match r {
            Some(t) => tool_of(mode, name@) == Some(t@),
            None => tool_of(mode, name@) is None,
        },
{
    let tools = catalog(mode);
    let ghost all = tool_views(tools@);
    let mut i: usize = 0;
    while i < tools.len()
        invariant
            i <= tools@.len(),
            all == tool_views(tools@),
            all == catalog_of(mode),
            tool_from(all, name@, 0) == tool_from(all, name@, i as int),
        decreases tools@.len() - i,
    {
        let t = &tools[i];
        assert(all[i as int] == t@);
        if text::same(t.name, name) {
            return Some(
                ToolDef { name: t.name, brief: t.brief, usage: t.usage, sensitive: t.sensitive },
            );
        }
        i += 1;
    }
    None
}

/// The roles whose tasks may use sensitive tools.
pub open spec fn is_privileged(role: Seq<char>) -> bool {
    role == "owner"@ || role == "admin"@ || role == "trusted"@
}

pub fn sensitive_allowed(role: &str) -> (r: bool)
    ensures
        r == is_privileged(role@),
{
    text::same(role, "owner") || text::same(role, "admin") || text::same(role, "trusted")
}

// ---------- what the model is told ----------

/// The words by which the main model learns of the helper. They never change with the
/// settings, so that a prefix cache keeps hitting.
pub fn agent_guide() -> (r: &'static str)
    ensures
        r@ == agent_guide_of(),
{
    "(你可以把需要实际操作的事交给子助手:在回复末尾用标记 [任务:QQ] 后跟一句自然语言描述(群操作,如设置群精华、改好友备注、群打卡、发送图片文件);或用 [任务:沙箱] 后跟自然语言描述(读取/写入文件、执行命令、下载或发送 QQ 上的文件图片)。子助手完成后会返回简短摘要,由你向群友汇报。仅当用户启用了对应模式时才使用,不要为琐事使用。)"
}

pub open spec fn agent_guide_of() -> Seq<char> {
    "(你可以把需要实际操作的事交给子助手:在回复末尾用标记 [任务:QQ] 后跟一句自然语言描述(群操作,如设置群精华、改好友备注、群打卡、发送图片文件);或用 [任务:沙箱] 后跟自然语言描述(读取/写入文件、执行命令、下载或发送 QQ 上的文件图片)。子助手完成后会返回简短摘要,由你向群友汇报。仅当用户启用了对应模式时才使用,不要为琐事使用。)"@
}

pub open spec fn select_rules() -> Seq<char> {
    "你是子助手「调度者」。根据用户的目标,从下面的工具目录中选取完成目标需要的工具。\n规则:\n- 只输出一个 JSON 对象,不要输出任何其他文字、代码块标记或解释;\n- 格式: {\"tools\": [\"工具名1\", \"工具名2\"], \"plan\": \"一句话执行计划\"}\n- 尽量一次选全完成目标需要的全部工具(可以多选);宁可多选一两个查询类工具,也不要漏选;\n- 如果目标无法用这些工具完成,输出: {\"tools\": [], \"plan\": \"无法完成的原因\"}\n- 只选目录里列出的工具名,不要编造。"@
}

pub open spec fn exec_rules() -> Seq<char> {
    "你是子助手「执行者」。你负责执行用户交代的任务,使用下面提供的工具。\n规则:\n- 每轮只输出一个 JSON 对象,不要输出任何其他文字、代码块标记或解释;\n- 需要执行工具时输出: {\"tool\": \"工具名\", \"params\": {参数}, \"note\": \"这一步要做什么(简短)\"}\n- 任务完成时输出: {\"done\": true, \"summary\": \"完成摘要(简短,给主模型看)\"}\n- 不要编造工具执行结果;每一步必须等工具结果返回后再决定下一步;\n- 某步被用户拒绝时,换一种方式继续,或直接输出 done 结束;\n- 尽量用最少的轮次完成;信息不足时用查询类工具获取,不要猜测。"@
}

/// The tools offered to a role: the sensitive ones only to a privileged one.
pub open spec fn menu(tools: Seq<ToolView>, role: Seq<char>) -> Seq<ToolView>
    decreases tools.len(),
{
    if tools.len() == 0 {
        Seq::<ToolView>::empty()
    } else if tools.last().sensitive && !is_privileged(role) {
        menu(tools.drop_last(), role)
    } else {
        menu(tools.drop_last(), role).push(tools.last())
    }
}

/// The lines of the offered tools.
pub open spec fn menu_lines(tools: Seq<ToolView>) -> Seq<char>
    decreases tools.len(),
{
    if tools.len() == 0 {
        Seq::<char>::empty()
    } else {
        menu_lines(tools.drop_last()) + "- "@ + tools.last().name + ": "@ + tools.last().brief + "\n"@
    }
}

/// The system text for the choice of tools.
pub open spec fn select_sys_of(mode: AgentMode, role: Seq<char>) -> Seq<char> {
    select_rules() + "\n\n可用工具("@ + mode.label_of() + "模式):\n"@ + menu_lines(
        menu(catalog_of(mode), role),
    )
}

pub fn select_sys(mode: AgentMode, role: &str) -> (r: String)
    ensures
        r@ == select_sys_of(mode, role@),
{
    let mut s =
        "你是子助手「调度者」。根据用户的目标,从下面的工具目录中选取完成目标需要的工具。\n规则:\n- 只输出一个 JSON 对象,不要输出任何其他文字、代码块标记或解释;\n- 格式: {\"tools\": [\"工具名1\", \"工具名2\"], \"plan\": \"一句话执行计划\"}\n- 尽量一次选全完成目标需要的全部工具(可以多选);宁可多选一两个查询类工具,也不要漏选;\n- 如果目标无法用这些工具完成,输出: {\"tools\": [], \"plan\": \"无法完成的原因\"}\n- 只选目录里列出的工具名,不要编造。".to_owned();
    s.append("\n\n可用工具(");
    s.append(mode.label());
    s.append("模式):\n");
    let ghost head = s@;
    let tools = catalog(mode);
    let ghost all = tool_views(tools@);
    let allowed = sensitive_allowed(role);
    let mut i: usize = 0;
    assert(head + menu_lines(menu(all.take(0), role@)) =~= head);
    while i < tools.len()
        invariant
            i <= tools@.len(),
            all == tool_views(tools@),
            allowed == is_privileged(role@),
            s@ == head + menu_lines(menu(all.take(i as int), role@)),
        decreases tools@.len() - i,
    {
        let t = &tools[i];
        let ghost before = menu(all.take(i as int), role@);
        proof {
            assert(all.take(i + 1).drop_last() == all.take(i as int));
            assert(all.take(i + 1).last() == t@);
        }
        if !(t.sensitive && !allowed) {
            s.append("- ");
            s.append(t.name);
            s.append(": ");
            s.append(t.brief);
            s.append("\n");
            proof {
                assert(before.push(t@).drop_last() =~= before);
                assert(s@ =~= head + menu_lines(before.push(t@)));
            }
        }
        i += 1;
    }
    assert(all.take(all.len() as int) == all);
    s
}

/// How the chosen tools are used, in the order of the catalogue.
pub open spec fn usage_lines(tools: Seq<ToolView>, selected: Seq<Seq<char>>) -> Seq<char>
    decreases tools.len(),
{
    if tools.len() == 0 {
        Seq::<char>::empty()
    } else {
        let init = usage_lines(tools.drop_last(), selected);
        if selected.contains(tools.last().name) {
            init + "【"@ + tools.last().name + "】\n"@ + tools.last().usage + "\n"@
        } else {
            init
        }
    }
}

/// The system text for the use of tools.
pub open spec fn exec_sys_of(mode: AgentMode, selected: Seq<Seq<char>>) -> Seq<char> {
    exec_rules() + "\n\n工具用法("@ + mode.label_of() + "模式):\n"@ + usage_lines(
        catalog_of(mode),
        selected,
    )
}

/// Whether a text is among others.
pub fn is_among(list: &Vec<String>, s: &str) -> (r: bool)
    ensures
        r == text::views(list@).contains(s@),
{
    let mut i: usize = 0;
    while i < list.len()
        invariant
            i <= list@.len(),
            forall|k: int| 0 <= k < i ==> (#[trigger] text::views(list@)[k]) != s@,
        decreases list@.len() - i,
    {
        if text::same(list[i].as_str(), s) {
            assert(text::views(list@)[i as int] == s@);
            return true;
        }
        i += 1;
    }
    false
}

pub fn exec_sys(mode: AgentMode, selected: &Vec<String>) -> (r: String)
    ensures
        r@ == exec_sys_of(mode, text::views(selected@)),
{
    let mut s =
        "你是子助手「执行者」。你负责执行用户交代的任务,使用下面提供的工具。\n规则:\n- 每轮只输出一个 JSON 对象,不要输出任何其他文字、代码块标记或解释;\n- 需要执行工具时输出: {\"tool\": \"工具名\", \"params\": {参数}, \"note\": \"这一步要做什么(简短)\"}\n- 任务完成时输出: {\"done\": true, \"summary\": \"完成摘要(简短,给主模型看)\"}\n- 不要编造工具执行结果;每一步必须等工具结果返回后再决定下一步;\n- 某步被用户拒绝时,换一种方式继续,或直接输出 done 结束;\n- 尽量用最少的轮次完成;信息不足时用查询类工具获取,不要猜测。".to_owned();
    s.append("\n\n工具用法(");
    s.append(mode.label());
    s.append("模式):\n");
    let ghost head = s@;
    let ghost chosen = text::views(selected@);
    let tools = catalog(mode);
    let ghost all = tool_views(tools@);
    let mut i: usize = 0;
    assert(head + usage_lines(all.take(0), chosen) =~= head);
    while i < tools.len()
        invariant
            i <= tools@.len(),
            all == tool_views(tools@),
            chosen == text::views(selected@),
            s@ == head + usage_lines(all.take(i as int), chosen),
        decreases tools@.len() - i,
    {
        let t = &tools[i];
        proof {
            assert(all.take(i + 1).drop_last() == all.take(i as int));
            assert(all.take(i + 1).last() == t@);
        }
        if is_among(selected, t.name) {
            s.append("【");
            s.append(t.name);
            s.append("】\n");
            s.append(t.usage);
            s.append("\n");
            assert(s@ =~= head + usage_lines(all.take(i + 1), chosen));
        }
        i += 1;
    }
    assert(all.take(all.len() as int) == all);
    s
}

// ---------- what the model answers ----------

/// From the first opening to the last closing brace of a text.
pub open spec fn braced_of(s: Seq<char>) -> Option<Seq<char>> {
    match (text::find_char_of(s, '{'), text::rfind_char_of(s, '}')) {
        (Some(a), Some(b)) => if a < b {
            Some(s.subrange(a, b + 1))
        } else {
            None
        },
        _ => None,
    }
}

/// The document between the outer braces of a text.
pub open spec fn embedded_of(s: Seq<char>) -> Option<JsonView> {
    match braced_of(s) {
        Some(t) => json::json_parse(t),
        None => None,
    }
}

pub fn braced(s: &str) -> (r: Option<&str>)
    ensures
        match r {
            Some(t) => braced_of(s@) == Some(t@),
            None => braced_of(s@) is None,
        },
{
    let n: usize = s.unicode_len();
    match (text::find_char(s, '{'), text::rfind_char(s, '}')) {
        (Some(a), Some(b)) => if a < b {
            assert(b < n);
            Some(s.substring_char(a, b + 1))
        } else {
            None
        },
        _ => None,
    }
}

/// Reads the document between the outer braces of a text, whatever stands around it.
pub fn extract_json(s: &str) -> (r: Option<Json>)
    ensures
        match r {
            Some(j) => embedded_of(s@) == Some(j@),
            None => embedded_of(s@) is None,
        },
{
    match braced(s) {
        Some(t) => parse_json(t),
        None => None,
    }
}

/// A choice of tools: their names and the plan, or why there is none.
pub open spec fn selection_of(v: Option<JsonView>) -> Result<(Seq<Seq<char>>, Seq<char>), Seq<char>> {
    match v {
        None => Err("未找到 JSON"@),
        Some(d) => match json::field(d, "tools"@) {
            JsonView::Array(a) => Ok((json::texts_of(a), json::str_field_or(d, "plan"@, ""@))),
            _ => Err("缺少 tools 数组"@),
        },
    }
}

pub open spec fn is_selection(
    r: Result<(Vec<String>, String), String>,
    want: Result<(Seq<Seq<char>>, Seq<char>), Seq<char>>,
) -> bool {
    match r {
        Ok((tools, plan)) => want == Ok::<(Seq<Seq<char>>, Seq<char>), Seq<char>>(
            (text::views(tools@), plan@),
        ),
        Err(e) => want == Err::<(Seq<Seq<char>>, Seq<char>), Seq<char>>(e@),
    }
}

/// The choice of tools in a document.
pub fn read_select(v: Option<&Json>) -> (r: Result<(Vec<String>, String), String>)
    ensures
        is_selection(
            r,
            selection_of(
                match v {
                    Some(j) => Some(j@),
                    None => None,
                },
            ),
        ),
{
    let d = match v {
        Some(j) => j,
        None => {
            return Err("未找到 JSON".to_owned());
        },
    };
    match d.get("tools") {
        Some(t) => {
            if t.array_len().is_some() {
                Ok((t.texts(), d.str_field_or("plan", "").to_owned()))
            } else {
                Err("缺少 tools 数组".to_owned())
            }
        },
        None => Err("缺少 tools 数组".to_owned()),
    }
}

/// The choice of tools in a reply.
pub fn parse_select(s: &str) -> (r: Result<(Vec<String>, String), String>)
    ensures
        is_selection(r, selection_of(embedded_of(s@))),
{
    match extract_json(s) {
        Some(j) => read_select(Some(&j)),
        None => read_select(None),
    }
}

/// A step that the model wants.
pub enum StepOutput {
    Done { summary: String },
    Call { tool: String, params: Json, note: String },
    /// The reply could not be read, for this reason.
    Invalid(String),
}

pub enum StepOutputView {
    Done(Seq<char>),
    Call { tool: Seq<char>, params: JsonView, note: Seq<char> },
    Invalid(Seq<char>),
}

impl View for StepOutput {
    type V = StepOutputView;

    open spec fn view(&self) -> StepOutputView {
        match self {
            StepOutput::Done { summary } => StepOutputView::Done(summary@),
            StepOutput::Call { tool, params, note } => StepOutputView::Call {
                tool: tool@,
                params: params@,
                note: note@,
            },
            StepOutput::Invalid(e) => StepOutputView::Invalid(e@),
        }
    }
}

/// The step in a document: the end, or the call of a tool that is named.
pub open spec fn step_of(v: Option<JsonView>) -> StepOutputView {
    match v {
        None => StepOutputView::Invalid("未找到 JSON"@),
        Some(d) => if json::bool_of(json::field(d, "done"@)) == Some(true) {
            StepOutputView::Done(json::str_field_or(d, "summary"@, "任务完成"@))
        } else {
            let tool = json::str_field_or(d, "tool"@, Seq::<char>::empty());
            if tool.len() > 0 {
                StepOutputView::Call {
                    tool,
                    params: match json::member(d, "params"@) {
                        Some(p) => p,
                        None => JsonView::Object(Seq::<(Seq<char>, JsonView)>::empty()),
                    },
                    note: json::str_field_or(d, "note"@, ""@),
                }
            } else {
                StepOutputView::Invalid("缺少 tool 字段"@)
            }
        },
    }
}

/// The step in a document.
pub fn read_step(v: Option<&Json>) -> (r: StepOutput)
    ensures
        r@ == step_of(
            match v {
                Some(j) => Some(j@),
                None => None,
            },
        ),
{
    let d = match v {
        Some(j) => j,
        None => {
            return StepOutput::Invalid("未找到 JSON".to_owned());
        },
    };
    if let Some(done) = d.bool_field("done") {
        if done {
            return StepOutput::Done { summary: d.str_field_or("summary", "任务完成").to_owned() };
        }
    }
    if let Some(tool) = d.str_field("tool") {
        if !tool.is_empty() {
            let params = match d.get("params") {
                Some(p) => p.clone(),
                None => Json::empty_object(),
            };
            return StepOutput::Call {
                tool: tool.to_owned(),
                params,
                note: d.str_field_or("note", "").to_owned(),
            };
        }
    }
    StepOutput::Invalid("缺少 tool 字段".to_owned())
}

/// The step in a reply.
pub fn parse_step(s: &str) -> (r: StepOutput)
    ensures
        r@ == step_of(embedded_of(s@)),
{
    match extract_json(s) {
        Some(j) => read_step(Some(&j)),
        None => read_step(None),
    }
}

/// A task that a mark in a reply asks for.
pub open spec fn task_mark_of(tag: Seq<char>) -> Option<(AgentMode, Seq<char>)> {
    let inner = text::trim_of(
        text::trim_end_matches_of(text::trim_start_matches_of(tag, "[任务:"@), "]"@),
    );
    match text::strip_prefix_of(inner, "QQ"@) {
        Some(c) => if text::trim_of(c).len() > 0 {
            Some((AgentMode::QqOps, text::trim_of(c)))
        } else {
            None
        },
        None => match text::strip_prefix_of(inner, "沙箱"@) {
            Some(c) => if text::trim_of(c).len() > 0 {
                Some((AgentMode::Sandbox, text::trim_of(c)))
            } else {
                None
            },
            None => None,
        },
    }
}

/// The reply without its task marks, and the tasks in their order. A mark without a
/// goal, or for another mode, stays in the text.
pub open spec fn task_ops_of(s: Seq<char>) -> (Seq<char>, Seq<(AgentMode, Seq<char>)>)
    decreases s.len(),
{
    match text::tag_of(s, "[任务:"@) {
        None => (s, Seq::<(AgentMode, Seq<char>)>::empty()),
        Some((a, b)) => {
            proof {
                text::lemma_tag(s, "[任务:"@);
            }
            let (clean, ops) = task_ops_of(s.skip(b));
            match task_mark_of(s.subrange(a, b)) {
                Some(op) => (s.take(a) + clean, seq![op] + ops),
                None => (s.take(b) + clean, ops),
            }
        },
    }
}

pub open spec fn mark_views(v: Seq<(AgentMode, String)>) -> Seq<(AgentMode, Seq<char>)> {
    v.map_values(|o: (AgentMode, String)| (o.0, o.1@))
}

fn read_mark(tag: &str) -> (r: Option<(AgentMode, String)>)
    ensures
        match r {
            Some(op) => task_mark_of(tag@) == Some((op.0, op.1@)),
            None => task_mark_of(tag@) is None,
        },
{
    let inner = text::trim(text::trim_end_matches(text::trim_start_matches(tag, "[任务:"), "]"));
    match text::strip_prefix(inner, "QQ") {
        Some(c) => {
            let c = text::trim(c);
            if !c.is_empty() {
                Some((AgentMode::QqOps, c.to_owned()))
            } else {
                None
            }
        },
        None => match text::strip_prefix(inner, "沙箱") {
            Some(c) => {
                let c = text::trim(c);
                if !c.is_empty() {
                    Some((AgentMode::Sandbox, c.to_owned()))
                } else {
                    None
                }
            },
            None => None,
        },
    }
}

/// Takes the task marks out of a reply. A mark that is never closed is plain text.
pub fn parse_task_ops(text: &str) -> (r: (String, Vec<(AgentMode, String)>))
    ensures
        (r.0@, mark_views(r.1@)) == task_ops_of(text@),
{
    let mut clean = String::new();
    let mut ops: Vec<(AgentMode, String)> = Vec::new();
    let mut rest = text;
    proof {
        assert(clean@ + task_ops_of(rest@).0 =~= task_ops_of(text@).0);
        assert(mark_views(ops@) + task_ops_of(rest@).1 =~= task_ops_of(text@).1);
    }
    loop
        invariant
            clean@ + task_ops_of(rest@).0 == task_ops_of(text@).0,
            mark_views(ops@) + task_ops_of(rest@).1 == task_ops_of(text@).1,
        ensures
            clean@ + rest@ == task_ops_of(text@).0,
            mark_views(ops@) == task_ops_of(text@).1,
        decreases rest@.len(),
    {
        match text::next_tag(rest, "[任务:") {
            None => {
                assert(mark_views(ops@) + Seq::<(AgentMode, Seq<char>)>::empty() =~= mark_views(ops@));
                break;
            },
            Some(span) => {
                let a: usize = span.0;
                let b: usize = span.1;
                let n: usize = rest.unicode_len();
                let tag = rest.substring_char(a, b);
                let next = rest.substring_char(b, n);
                let ghost clean0 = clean@;
                let ghost ops0 = mark_views(ops@);
                assert(next@ == rest@.skip(b as int));
                match read_mark(tag) {
                    Some(op) => {
                        let head = rest.substring_char(0, a);
                        let ghost v = (op.0, op.1@);
                        ops.push(op);
                        proof {
                            assert(head@ == rest@.take(a as int));
                            assert(clean0 + (head@ + task_ops_of(next@).0) =~= clean0 + head@ + task_ops_of(
                                next@,
                            ).0);
                            assert(mark_views(ops@) =~= ops0.push(v));
                            assert(ops0.push(v) + task_ops_of(next@).1 =~= ops0 + (seq![v] + task_ops_of(
                                next@,
                            ).1));
                        }
                        clean.append(head);
                    },
                    None => {
                        let head = rest.substring_char(0, b);
                        proof {
                            assert(head@ == rest@.take(b as int));
                            assert(clean0 + (head@ + task_ops_of(next@).0) =~= clean0 + head@ + task_ops_of(
                                next@,
                            ).0);
                        }
                        clean.append(head);
                    },
                }
                rest = next;
            },
        }
    }
    clean.append(rest);
    (clean, ops)
}

// ---------- laws ----------

/// The tools of a mode have different names.
pub proof fn law_tool_names_differ(mode: AgentMode, i: int, j: int)
    requires
        0 <= i < j < catalog_of(mode).len(),
    ensures
        catalog_of(mode)[i].name != catalog_of(mode)[j].name,
{
    match mode {
        AgentMode::QqOps => lemma_qq_names(i, j),
        AgentMode::Sandbox => lemma_sandbox_names(i, j),
    }
}

proof fn lemma_qq_names(i: int, j: int)
    requires
        0 <= i < j < qq_tools_of().len(),
    ensures
        qq_tools_of()[i].name != qq_tools_of()[j].name,
{
    reveal_strlit("send_group_msg");
    reveal_strlit("send_private_msg");
    reveal_strlit("set_essence_msg");
    reveal_strlit("set_friend_remark");
    reveal_strlit("set_group_card");
    reveal_strlit("send_group_sign");
    reveal_strlit("get_msg");
    reveal_strlit("get_group_msg_history");
    reveal_strlit("get_group_member_info");
    reveal_strlit("send_poke");
    reveal_strlit("upload_group_file");
    reveal_strlit("get_file");
    reveal_strlit("delete_msg");
    reveal_strlit("set_group_ban");
    reveal_strlit("set_group_whole_ban");
    reveal_strlit("set_group_kick");
    assert("send_group_msg"@.len() == 14);
    assert("send_private_msg"@.len() == 16);
    assert("set_essence_msg"@.len() == 15);
    assert("set_friend_remark"@.len() == 17);
    assert("set_group_card"@.len() == 14);
    assert("send_group_sign"@.len() == 15);
    assert("get_msg"@.len() == 7);
    assert("get_group_msg_history"@.len() == 21);
    assert("get_group_member_info"@.len() == 21);
    assert("send_poke"@.len() == 9);
    assert("upload_group_file"@.len() == 17);
    assert("get_file"@.len() == 8);
    assert("delete_msg"@.len() == 10);
    assert("set_group_ban"@.len() == 13);
    assert("set_group_whole_ban"@.len() == 19);
    assert("set_group_kick"@.len() == 14);
    assert("send_group_msg"@[2] != "set_group_card"@[2]);
    assert("send_group_msg"@[2] != "set_group_kick"@[2]);
    assert("set_essence_msg"@[2] != "send_group_sign"@[2]);
    assert("set_friend_remark"@[0] != "upload_group_file"@[0]);
    assert("set_group_card"@[10] != "set_group_kick"@[10]);
    assert("get_group_msg_history"@[11] != "get_group_member_info"@[11]);
}

proof fn lemma_sandbox_names(i: int, j: int)
    requires
        0 <= i < j < sandbox_tools_of().len(),
    ensures
        sandbox_tools_of()[i].name != sandbox_tools_of()[j].name,
{
    reveal_strlit("sandbox_read_file");
    reveal_strlit("sandbox_write_file");
    reveal_strlit("sandbox_list_dir");
    reveal_strlit("sandbox_run_cmd");
    reveal_strlit("sandbox_download_qq_file");
    reveal_strlit("sandbox_send_file");
    reveal_strlit("sandbox_download_url");
    reveal_strlit("sandbox_status");
    assert("sandbox_read_file"@.len() == 17);
    assert("sandbox_write_file"@.len() == 18);
    assert("sandbox_list_dir"@.len() == 16);
    assert("sandbox_run_cmd"@.len() == 15);
    assert("sandbox_download_qq_file"@.len() == 24);
    assert("sandbox_send_file"@.len() == 17);
    assert("sandbox_download_url"@.len() == 20);
    assert("sandbox_status"@.len() == 14);
    assert("sandbox_read_file"@[8] != "sandbox_send_file"@[8]);
}

/// Whoever may not use sensitive tools is not offered any: what is offered are tools of
/// the catalogue that are harmless, or the role is privileged.
pub proof fn law_menu_hides_sensitive(tools: Seq<ToolView>, role: Seq<char>)
    ensures
        forall|i: int|
            0 <= i < menu(tools, role).len() ==> {
                &&& tools.contains(#[trigger] menu(tools, role)[i])
                &&& menu(tools, role)[i].sensitive ==> is_privileged(role)
            },
    decreases tools.len(),
{
    if tools.len() > 0 {
        let init = tools.drop_last();
        law_menu_hides_sensitive(init, role);
        assert forall|i: int| 0 <= i < menu(tools, role).len() implies {
            &&& tools.contains(#[trigger] menu(tools, role)[i])
            &&& menu(tools, role)[i].sensitive ==> is_privileged(role)
        } by {
            if i < menu(init, role).len() {
                assert(menu(tools, role)[i] == menu(init, role)[i]);
                let k = choose|k: int| 0 <= k < init.len() && init[k] == menu(init, role)[i];
                assert(tools[k] == menu(tools, role)[i]);
            } else {
                assert(menu(tools, role)[i] == tools[tools.len() - 1]);
            }
        }
    }
}

/// A reply without a closed task mark is left as it is, and asks for nothing.
pub proof fn law_unmarked_reply_kept(s: Seq<char>)
    requires
        text::tag_of(s, "[任务:"@) is None,
    ensures
        task_ops_of(s) == (s, Seq::<(AgentMode, Seq<char>)>::empty()),
{
}

/// Marks only shorten a reply, and a mark that asks for a task does.
pub proof fn law_marks_are_taken_out(s: Seq<char>)
    ensures
        task_ops_of(s).0.len() <= s.len(),
        task_ops_of(s).1.len() > 0 ==> task_ops_of(s).0.len() < s.len(),
    decreases s.len(),
{
    if let Some((a, b)) = text::tag_of(s, "[任务:"@) {
        text::lemma_tag(s, "[任务:"@);
        law_marks_are_taken_out(s.skip(b));
    }
}

/// Every task that a reply asks for has a goal.
pub proof fn law_marked_tasks_have_goals(s: Seq<char>)
    ensures
        forall|i: int| 0 <= i < task_ops_of(s).1.len() ==> (#[trigger] task_ops_of(s).1[i]).1.len() > 0,
    decreases s.len(),
{
    if let Some((a, b)) = text::tag_of(s, "[任务:"@) {
        text::lemma_tag(s, "[任务:"@);
        law_marked_tasks_have_goals(s.skip(b));
        let rest = task_ops_of(s.skip(b)).1;
        let all = task_ops_of(s).1;
        assert forall|i: int| 0 <= i < all.len() implies (#[trigger] all[i]).1.len() > 0 by {
            match task_mark_of(s.subrange(a, b)) {
                Some(op) => {
                    if i > 0 {
                        assert(all[i] == rest[i - 1]);
                    }
                },
                None => {
                    assert(all[i] == rest[i]);
                },
            }
        }
    }
}

/// Privileged are owners, administrators and trusted accounts, and nobody else: neither a
/// plain member nor somebody in a private conversation.
pub proof fn law_who_is_privileged(role: Seq<char>)
    ensures
        is_privileged(role) <==> (role == "owner"@ || role == "admin"@ || role == "trusted"@),
        !is_privileged("member"@),
        !is_privileged("private"@),
        !is_privileged(""@),
{
    reveal_strlit("owner");
    reveal_strlit("admin");
    reveal_strlit("trusted");
    reveal_strlit("member");
    reveal_strlit("private");
    reveal_strlit("");
    assert("owner"@.len() == 5 && "admin"@.len() == 5 && "trusted"@.len() == 7 && "member"@.len() == 6);
    assert("private"@.len() == 7 && "private"@[0] == 'p' && "trusted"@[0] == 't');
}

/// What takes something away from others is sensitive, wherever it is in the catalogue: to
/// recall a message, to silence or to remove somebody. Nothing else is.
pub proof fn law_what_is_sensitive(mode: AgentMode, i: int)
    requires
        0 <= i < catalog_of(mode).len(),
    ensures
        ({
            let name = catalog_of(mode)[i].name;
            catalog_of(mode)[i].sensitive <==> (name == "delete_msg"@ || name == "set_group_ban"@ || name
                == "set_group_whole_ban"@ || name == "set_group_kick"@)
        }),
{
    if mode == AgentMode::QqOps {
        assert forall|k: int| 12 <= k < 16 && i != k implies #[trigger] qq_tools_of()[k].name != qq_tools_of()[i].name by {
            if i < k {
                law_tool_names_differ(mode, i, k);
            } else {
                law_tool_names_differ(mode, k, i);
            }
        }
        assert(qq_tools_of()[12].name == "delete_msg"@ && qq_tools_of()[13].name == "set_group_ban"@);
        assert(qq_tools_of()[14].name == "set_group_whole_ban"@ && qq_tools_of()[15].name == "set_group_kick"@);
    } else {
        reveal_strlit("delete_msg");
        reveal_strlit("set_group_ban");
        reveal_strlit("set_group_whole_ban");
        reveal_strlit("set_group_kick");
        reveal_strlit("sandbox_read_file");
        reveal_strlit("sandbox_write_file");
        reveal_strlit("sandbox_list_dir");
        reveal_strlit("sandbox_run_cmd");
        reveal_strlit("sandbox_download_qq_file");
        reveal_strlit("sandbox_send_file");
        reveal_strlit("sandbox_download_url");
        reveal_strlit("sandbox_status");
        let name = catalog_of(mode)[i].name;
        assert(name[1] == 'a' && name.len() > 1);
        assert("delete_msg"@[1] == 'e' && "set_group_ban"@[1] == 'e' && "set_group_whole_ban"@[1] == 'e'
            && "set_group_kick"@[1] == 'e');
    }
}

/// A tool is found by its name, and nothing is found by another.
pub proof fn law_tool_is_found_by_name(mode: AgentMode, name: Seq<char>, i: int)
    ensures
        0 <= i < catalog_of(mode).len() ==> tool_of(mode, catalog_of(mode)[i].name) == Some(catalog_of(mode)[i]),
        tool_of(mode, name) matches Some(t) ==> t.name == name && catalog_of(mode).contains(t),
        (forall|k: int| 0 <= k < catalog_of(mode).len() ==> (#[trigger] catalog_of(mode)[k]).name != name) ==> tool_of(
            mode,
            name,
        ) is None,
{
    lemma_tool_from(catalog_of(mode), name, 0);
    if 0 <= i < catalog_of(mode).len() {
        let n = catalog_of(mode)[i].name;
        lemma_tool_from(catalog_of(mode), n, 0);
        let t = tool_of(mode, n)->0;
        let k = choose|k: int| 0 <= k < catalog_of(mode).len() && catalog_of(mode)[k] == t;
        if k < i {
            law_tool_names_differ(mode, k, i);
        } else if i < k {
            law_tool_names_differ(mode, i, k);
        }
    }
}

proof fn lemma_tool_from(tools: Seq<ToolView>, name: Seq<char>, from: int)
    requires
        0 <= from <= tools.len(),
    ensures
        match tool_from(tools, name, from) {
            Some(t) => t.name == name && tools.contains(t),
            None => forall|k: int| from <= k < tools.len() ==> (#[trigger] tools[k]).name != name,
        },
    decreases tools.len() - from,
{
    if from < tools.len() && tools[from].name != name {
        lemma_tool_from(tools, name, from + 1);
    }
}

/// A privileged role is offered everything, and every role whatever is harmless; each is
/// offered by its name and what it is for.
pub proof fn law_menu_offers_the_rest(tools: Seq<ToolView>, role: Seq<char>, i: int)
    requires
        0 <= i < tools.len(),
    ensures
        is_privileged(role) ==> menu(tools, role) == tools,
        !tools[i].sensitive ==> menu(tools, role).contains(tools[i]),
        text::includes(menu_lines(tools), "- "@ + tools[i].name + ": "@ + tools[i].brief + "\n"@),
    decreases tools.len(),
{
    if is_privileged(role) {
        lemma_menu_of_privileged(tools, role);
    }
    let front = tools.drop_last();
    let m = menu(tools, role);
    let line = "- "@ + tools[i].name + ": "@ + tools[i].brief + "\n"@;
    let all = menu_lines(tools);
    if i < front.len() {
        law_menu_offers_the_rest(front, role, i);
        assert(front[i] == tools[i]);
        if !tools[i].sensitive {
            let f = menu(front, role);
            let k = choose|k: int| 0 <= k < f.len() && f[k] == tools[i];
            assert(m[k] == tools[i]);
        }
        let k = choose|k: int| text::occurs_at(menu_lines(front), line, k);
        assert(all.subrange(k, k + line.len()) =~= menu_lines(front).subrange(k, k + line.len()));
        assert(text::occurs_at(all, line, k));
    } else {
        if !tools[i].sensitive {
            assert(m[m.len() - 1] == tools[i]);
        }
        assert(all =~= menu_lines(front) + line + Seq::<char>::empty());
        text::law_occurrence(menu_lines(front), line, Seq::<char>::empty());
    }
}

proof fn lemma_menu_of_privileged(tools: Seq<ToolView>, role: Seq<char>)
    requires
        is_privileged(role),
    ensures
        menu(tools, role) == tools,
    decreases tools.len(),
{
    if tools.len() > 0 {
        lemma_menu_of_privileged(tools.drop_last(), role);
        assert(tools.drop_last().push(tools.last()) =~= tools);
    } else {
        assert(tools =~= Seq::<ToolView>::empty());
    }
}

/// Of a chosen tool the whole use is told; without a choice nothing is.
pub proof fn law_use_of_chosen_tools_is_told(tools: Seq<ToolView>, selected: Seq<Seq<char>>, i: int)
    requires
        0 <= i < tools.len(),
    ensures
        selected.contains(tools[i].name) ==> text::includes(
            usage_lines(tools, selected),
            "【"@ + tools[i].name + "】\n"@ + tools[i].usage + "\n"@,
        ),
        (forall|k: int| 0 <= k < tools.len() ==> !selected.contains((#[trigger] tools[k]).name)) ==> usage_lines(
            tools,
            selected,
        ).len() == 0,
    decreases tools.len(),
{
    let front = tools.drop_last();
    let all = usage_lines(tools, selected);
    let init = usage_lines(front, selected);
    let line = "【"@ + tools[i].name + "】\n"@ + tools[i].usage + "\n"@;
    if front.len() > 0 {
        law_use_of_chosen_tools_is_told(
            front,
            selected,
            if i < front.len() {
                i
            } else {
                0
            },
        );
        assert forall|k: int| 0 <= k < front.len() implies #[trigger] front[k] == tools[k] by {}
    }
    if (forall|k: int| 0 <= k < tools.len() ==> !selected.contains((#[trigger] tools[k]).name)) {
        assert(!selected.contains(tools[tools.len() - 1].name));
        assert forall|k: int| 0 <= k < front.len() implies !selected.contains((#[trigger] front[k]).name) by {
            assert(front[k] == tools[k]);
        }
    }
    if selected.contains(tools[i].name) {
        if i < front.len() {
            let k = choose|k: int| text::occurs_at(init, line, k);
            assert(all.subrange(k, k + line.len()) =~= init.subrange(k, k + line.len()));
            assert(text::occurs_at(all, line, k));
        } else {
            assert(all =~= init + line + Seq::<char>::empty());
            text::law_occurrence(init, line, Seq::<char>::empty());
        }
    }
}

proof fn lemma_first_place(s: Seq<char>, c: char, a: int)
    requires
        0 <= a < s.len(),
        s[a] == c,
        forall|i: int| 0 <= i < a ==> #[trigger] s[i] != c,
    ensures
        text::find_char_of(s, c) == Some(a),
{
    text::law_first_and_last_place(s, c);
}

proof fn lemma_last_place(s: Seq<char>, c: char, b: int)
    requires
        0 <= b < s.len(),
        s[b] == c,
        forall|i: int| b < i < s.len() ==> #[trigger] s[i] != c,
    ensures
        text::rfind_char_of(s, c) == Some(b),
{
    text::law_first_and_last_place(s, c);
}

/// What stands around the outer braces does not matter.
pub proof fn law_document_is_between_the_braces(before: Seq<char>, inside: Seq<char>, behind: Seq<char>)
    requires
        forall|i: int| 0 <= i < before.len() ==> #[trigger] before[i] != '{',
        forall|i: int| 0 <= i < behind.len() ==> #[trigger] behind[i] != '}',
    ensures
        braced_of(before + seq!['{'] + inside + seq!['}'] + behind) == Some(seq!['{'] + inside + seq!['}']),
        embedded_of(before + seq!['{'] + inside + seq!['}'] + behind) == json::json_parse(
            seq!['{'] + inside + seq!['}'],
        ),
{
    let s = before + seq!['{'] + inside + seq!['}'] + behind;
    let a = before.len() as int;
    let b = a + 1 + inside.len();
    assert(s[a] == '{' && s[b] == '}');
    assert forall|i: int| 0 <= i < a implies #[trigger] s[i] != '{' by {
        assert(s[i] == before[i]);
    }
    assert forall|i: int| b < i < s.len() implies #[trigger] s[i] != '}' by {
        assert(s[i] == behind[i - b - 1]);
    }
    lemma_first_place(s, '{', a);
    lemma_last_place(s, '}', b);
    assert(s.subrange(a, b + 1) =~= seq!['{'] + inside + seq!['}']);
}

/// A choice holds the names that the document lists, in their order, and its plan.
pub proof fn law_choice_is_read(d: JsonView, items: Seq<JsonView>)
    requires
        json::field(d, "tools"@) == JsonView::Array(items),
    ensures
        match selection_of(Some(d)) {
            Ok((names, plan)) => names == json::texts_of(items) && (json::field(d, "plan"@) matches JsonView::Str(p)
                ==> plan == p),
            Err(_) => false,
        },
        selection_of(None) is Err,
{
}

/// The end is read where the document says so, else a call of the tool that it names, with
/// the parameters as they stand there; without a name it is neither.
pub proof fn law_step_is_read(d: JsonView)
    ensures
        match step_of(Some(d)) {
            StepOutputView::Done(summary) => json::bool_of(json::field(d, "done"@)) == Some(true) && (json::field(
                d,
                "summary"@,
            ) matches JsonView::Str(s) ==> summary == s),
            StepOutputView::Call { tool, params, note } => {
                &&& json::bool_of(json::field(d, "done"@)) != Some(true)
                &&& json::field(d, "tool"@) == JsonView::Str(tool) && tool.len() > 0
                &&& json::member(d, "params"@) matches Some(p) ==> params == p
                &&& json::field(d, "note"@) matches JsonView::Str(n) ==> note == n
            },
            StepOutputView::Invalid(_) => json::bool_of(json::field(d, "done"@)) != Some(true) && (json::field(
                d,
                "tool"@,
            ) matches JsonView::Str(t) ==> t.len() == 0),
        },
        step_of(None) is Invalid,
{
}

/// A mark asks for the task that stands in it, in the mode that it names.
pub proof fn law_mark_asks_for_its_task(goal: Seq<char>)
    requires
        forall|i: int| 0 <= i < goal.len() ==> #[trigger] goal[i] != ']',
        text::trim_of(goal).len() > 0,
    ensures
        task_mark_of("[任务:"@ + "QQ"@ + goal + seq![']']) == Some((AgentMode::QqOps, text::trim_of(goal))),
        task_mark_of("[任务:"@ + "沙箱"@ + goal + seq![']']) == Some((AgentMode::Sandbox, text::trim_of(goal))),
{
    reveal_strlit("[任务:");
    reveal_strlit("QQ");
    reveal_strlit("沙箱");
    let qq = "QQ"@;
    let sb = "沙箱"@;
    assert(qq.len() == 2 && qq[0] == 'Q' && qq[1] == 'Q');
    assert(sb.len() == 2 && sb[0] == '沙' && sb[1] == '箱');
    text::lemma_mark_inside("[任务:"@, qq, goal);
    text::lemma_mark_inside("[任务:"@, sb, goal);
    text::lemma_trim_end_first(goal);
    let t = text::trim_end_of(goal);
    assert((qq + t).take(2) =~= qq);
    assert((qq + t).skip(2) =~= t);
    assert((sb + t).take(2) =~= sb);
    assert((sb + t).skip(2) =~= t);
    if text::begins(sb + t, qq) {
        assert((sb + t).take(2)[0] == sb[0]);
    }
}

/// The tasks of a reply come in their order, and what is no task stays in the text.
pub proof fn law_tasks_come_in_order(s: Seq<char>, a: int, b: int)
    requires
        text::tag_of(s, "[任务:"@) == Some((a, b)),
    ensures
        match task_mark_of(s.subrange(a, b)) {
            Some(op) => task_ops_of(s).1 == seq![op] + task_ops_of(s.skip(b)).1 && task_ops_of(s).0 == s.take(a)
                + task_ops_of(s.skip(b)).0,
            None => task_ops_of(s).1 == task_ops_of(s.skip(b)).1 && task_ops_of(s).0 == s.take(b) + task_ops_of(
                s.skip(b),
            ).0,
        },
{
    text::lemma_tag(s, "[任务:"@);
}

/// A choice that could be read holds the very names and plan, and one that could not the
/// reason.
pub proof fn law_choice_is_handed_on(
    r: Result<(Vec<String>, String), String>,
    want: Result<(Seq<Seq<char>>, Seq<char>), Seq<char>>,
)
    requires
        is_selection(r, want),
    ensures
        r is Ok <==> want is Ok,
        match (r, want) {
            (Ok((names, plan)), Ok((n, p))) => text::views(names@) == n && plan@ == p,
            (Err(e), Err(w)) => e@ == w,
            _ => false,
        },
{
}

/// The helper is told the rules first, then the mode, and then the tools: those it is
/// offered to choose from, or those it has chosen.
pub proof fn law_helper_is_told_the_rules(mode: AgentMode, role: Seq<char>, selected: Seq<Seq<char>>)
    ensures
        text::begins(select_sys_of(mode, role), select_rules()),
        text::includes(select_sys_of(mode, role), mode.label_of()),
        text::ends(select_sys_of(mode, role), menu_lines(menu(catalog_of(mode), role))),
        text::begins(exec_sys_of(mode, selected), exec_rules()),
        text::includes(exec_sys_of(mode, selected), mode.label_of()),
        text::ends(exec_sys_of(mode, selected), usage_lines(catalog_of(mode), selected)),
{
    lemma_told(select_rules(), "\n\n可用工具("@, mode.label_of(), "模式):\n"@, menu_lines(menu(catalog_of(mode), role)));
    lemma_told(exec_rules(), "\n\n工具用法("@, mode.label_of(), "模式):\n"@, usage_lines(catalog_of(mode), selected));
}

proof fn lemma_told(a: Seq<char>, b: Seq<char>, c: Seq<char>, d: Seq<char>, e: Seq<char>)
    ensures
        text::begins(a + b + c + d + e, a),
        text::includes(a + b + c + d + e, c),
        text::ends(a + b + c + d + e, e),
{
    let s = a + b + c + d + e;
    assert(s.take(a.len() as int) =~= a);
    let i: int = (a.len() + b.len()) as int;
    assert(s.subrange(i, i + c.len()) =~= c);
    assert(text::occurs_at(s, c, i));
    assert(s.skip(s.len() - e.len()) =~= e);
}

} // verus!
