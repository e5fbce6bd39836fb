use lightbot::agent::plans::{
    absent_here, download_report, fetched_path, list_report, plan_qq_tool, plan_sandbox_tool, plan_send_file,
    read_report, report_action, run_report, Report, SandboxPlan,
};
use lightbot::agent::tools::{
    agent_guide, catalog, exec_sys, extract_json, parse_select, parse_step, parse_task_ops, select_sys,
    sensitive_allowed, tool_by_name, StepOutput,
};
use lightbot::agent::{
    build_task_brief, check_requester, check_role, result_line, retry_note, AgentManager, AgentMode, ApprovalDecision, ApprovalEvent,
    ApprovalNext, Ask, OriginInfo, PendingStep, PhaseNext, RequesterCheck, RunnerStep, TaskStatus, WaitStep,
};
use lightbot::config::{AgentConfig, SandboxConfig};
use lightbot::json::{parse_json, Part};
use lightbot::napcat::{call_text, MsgKind};
use lightbot::sandbox::{Backend, CmdOutput, JailBackend};

fn agent_cfg() -> AgentConfig {
    AgentConfig {
        enable_qq_ops: true,
        enable_sandbox: true,
        sandbox_backend: "jail".into(),
        owner_whitelist: "42, 43".into(),
        allowed_group_roles: "owner,admin".into(),
        allow_private: false,
        max_rounds: 2,
        select_max_tokens: 512,
        step_max_tokens: 10,
        approval_timeout_secs: 5,
        task_timeout_secs: 5,
    }
}

fn sandbox_cfg() -> SandboxConfig {
    SandboxConfig {
        cmd_allowlist: "python".into(),
        cmd_timeout_secs: 0,
        docker_image: String::new(),
        docker_memory: String::new(),
        mem_limit_mb: 0,
        cpu_limit_secs: 0,
        destroy_on_done: true,
    }
}

fn origin(role: &str) -> OriginInfo {
    OriginInfo {
        kind: MsgKind::Group,
        group_id: Some(7),
        user_id: 5,
        session_key: "g7".into(),
        requester_role: role.into(),
    }
}

fn manager_with(role: &str) -> AgentManager {
    let mut m = AgentManager::new();
    m.spawn(
        &agent_cfg(),
        sandbox_cfg(),
        AgentMode::QqOps,
        "  打卡 ",
        origin("?"),
        Ok(role.to_string()),
        "t1".into(),
        100,
        "/sb/t1".into(),
    )
    .unwrap();
    m
}

#[test]
fn parse_task_markers() {
    let (clean, ops) = parse_task_ops("好的,我来处理。[任务:QQ 把消息123设为群精华] 稍等");
    assert_eq!(clean, "好的,我来处理。 稍等");
    assert_eq!(ops.len(), 1);
    assert_eq!(ops[0].0, AgentMode::QqOps);
    assert_eq!(ops[0].1, "把消息123设为群精华");

    let (clean, ops) = parse_task_ops("[任务:沙箱 下载图片并处理]正文[任务:QQ 打卡]");
    assert_eq!(clean, "正文");
    assert_eq!(ops.len(), 2);
    assert_eq!(ops[0].0, AgentMode::Sandbox);
    assert_eq!(ops[1].0, AgentMode::QqOps);

    let (clean, ops) = parse_task_ops("x[任务:QQ ]y");
    assert_eq!(clean, "x[任务:QQ ]y");
    assert!(ops.is_empty());
    let (clean, ops) = parse_task_ops("x[任务:别的 目标]y");
    assert_eq!(clean, "x[任务:别的 目标]y");
    assert!(ops.is_empty());
    let (clean, ops) = parse_task_ops("x[任务:QQ 未闭合");
    assert_eq!(clean, "x[任务:QQ 未闭合");
    assert!(ops.is_empty());
}

#[test]
fn json_extraction() {
    assert_eq!(extract_json("好的 {\"a\":1} 结束").unwrap().i64_field("a"), Some(1));
    let v = extract_json("```json\n{\"tools\":[\"a\"]}\n```").unwrap();
    assert_eq!(v.get("tools").unwrap().at(0).unwrap().as_str(), Some("a"));
    assert!(extract_json("没有 json").is_none());
    assert!(extract_json("} 反了 {").is_none());
}

#[test]
fn select_parse() {
    let (tools, plan) =
        parse_select("{\"tools\":[\"set_essence_msg\",\"get_msg\"],\"plan\":\"先查再设\"}").unwrap();
    assert_eq!(tools.len(), 2);
    assert_eq!(plan, "先查再设");
    let (tools, _) = parse_select("{\"tools\":[],\"plan\":\"无法\"}").unwrap();
    assert!(tools.is_empty());
    assert!(parse_select("not json").is_err());
    assert_eq!(parse_select("not json").unwrap_err(), "未找到 JSON");
    assert_eq!(parse_select("{\"tools\":1}").unwrap_err(), "缺少 tools 数组");
}

#[test]
fn step_parse() {
    match parse_step("{\"tool\":\"set_essence_msg\",\"params\":{\"message_id\":123},\"note\":\"设置\"}") {
        StepOutput::Call { tool, params, note } => {
            assert_eq!(tool, "set_essence_msg");
            assert_eq!(params.i64_field("message_id"), Some(123));
            assert_eq!(note, "设置");
        }
        _ => panic!("应为工具调用"),
    }
    match parse_step("{\"done\":true,\"summary\":\"搞定\"}") {
        StepOutput::Done { summary } => assert_eq!(summary, "搞定"),
        _ => panic!("应为完成"),
    }
    assert!(matches!(parse_step("乱输出"), StepOutput::Invalid(_)));
    match parse_step("{\"tool\":\"x\"}") {
        StepOutput::Call { params, .. } => assert_eq!(params.text(), "{}"),
        _ => panic!("应为工具调用"),
    }
}

#[test]
fn sensitive_filter() {
    assert!(AgentManager::sensitive_allowed("owner"));
    assert!(AgentManager::sensitive_allowed("admin"));
    assert!(AgentManager::sensitive_allowed("trusted"));
    assert!(!AgentManager::sensitive_allowed("member"));
    assert!(!AgentManager::sensitive_allowed("private"));
    assert!(!sensitive_allowed(""));
}

#[test]
fn catalogs_complete() {
    for mode in [AgentMode::QqOps, AgentMode::Sandbox] {
        let mut names = Vec::new();
        for t in catalog(mode) {
            assert!(!names.contains(&t.name), "重复工具: {}", t.name);
            names.push(t.name);
        }
        assert!(tool_by_name(mode, names[0]).is_some());
        assert!(tool_by_name(mode, "nonexistent").is_none());
    }
    for need in ["set_essence_msg", "set_friend_remark", "set_group_card", "send_group_sign"] {
        assert!(tool_by_name(AgentMode::QqOps, need).is_some(), "缺少 {need}");
    }
}

#[test]
fn select_sys_hides_sensitive_for_member() {
    let s = select_sys(AgentMode::QqOps, "member");
    assert!(!s.contains("delete_msg"));
    assert!(s.contains("set_essence_msg"));
    let s2 = select_sys(AgentMode::QqOps, "owner");
    assert!(s2.contains("delete_msg"));
}

#[test]
fn guide_and_usage_are_fixed() {
    assert!(agent_guide().starts_with("(你可以把需要实际操作的事交给子助手"));
    let s = exec_sys(AgentMode::Sandbox, &vec!["sandbox_status".to_string()]);
    assert!(s.starts_with("你是子助手「执行者」。"));
    assert!(s.ends_with("\n\n工具用法(沙箱模式):\n【sandbox_status】\n无参数\n"));
}

#[test]
fn labels_of_modes_and_states() {
    assert_eq!(AgentMode::QqOps.label(), "QQ 操作");
    assert_eq!(TaskStatus::AwaitingApproval.label(), "等待审批");
    assert!(TaskStatus::Stopped.terminal());
    assert!(!TaskStatus::Paused.terminal());
}

#[test]
fn brief_tells_where_a_task_comes_from() {
    assert_eq!(
        build_task_brief(AgentMode::Sandbox, "目标", &origin("admin"), "jail"),
        "【任务目标】\n目标\n\n【触发场景】来源: 群 7 触发者 QQ: 5(角色:admin)\n【沙箱】后端: jail"
    );
}

#[test]
fn requester_rights() {
    let cfg = agent_cfg();
    let mut o = origin("?");
    o.user_id = 43;
    assert!(matches!(check_requester(&cfg, &o), RequesterCheck::Granted(r) if r == "trusted"));
    o.user_id = 5;
    match check_requester(&cfg, &o) {
        RequesterCheck::AskRole(call) => {
            assert_eq!(call.action, "get_group_member_info");
            assert_eq!(
                call_text(&call, "lb_1"),
                "{\"action\":\"get_group_member_info\",\"echo\":\"lb_1\",\"params\":{\"group_id\":7,\"user_id\":5}}"
            );
        }
        _ => panic!("应查询角色"),
    }
    o.group_id = None;
    assert!(matches!(check_requester(&cfg, &o), RequesterCheck::Refused(e) if e == "缺少群号"));
    o.kind = MsgKind::Private;
    assert!(matches!(check_requester(&cfg, &o), RequesterCheck::Refused(_)));

    let admin = parse_json("{\"role\":\"admin\"}").unwrap();
    assert_eq!(check_role(&cfg, Ok(admin)).unwrap(), "admin");
    assert_eq!(check_role(&cfg, Err("x".into())).unwrap_err(), "仅owner/admin(角色)可以发起任务");
    let mut none = agent_cfg();
    none.allowed_group_roles = " , ".into();
    assert_eq!(check_role(&none, Err("x".into())).unwrap_err(), "仅白名单 QQ 可以发起任务");
}

#[test]
fn spawning_checks_mode_and_goal() {
    let mut m = AgentManager::new();
    let mut cfg = agent_cfg();
    cfg.enable_qq_ops = false;
    let r = m.spawn_trusted(&cfg, sandbox_cfg(), AgentMode::QqOps, "x", "g7", "a".into(), 1, "/r".into());
    assert_eq!(r.unwrap_err(), "QQ 操作模式已关闭(可在 SubAgent 设置中开启)");
    cfg.enable_sandbox = false;
    let r = m.spawn_trusted(&cfg, sandbox_cfg(), AgentMode::Sandbox, "x", "g7", "a".into(), 1, "/r".into());
    assert_eq!(r.unwrap_err(), "沙箱模式已关闭(可在 SubAgent 设置中开启)");
    let cfg = agent_cfg();
    let r = m.spawn_trusted(&cfg, sandbox_cfg(), AgentMode::Sandbox, " ", "g7", "a".into(), 1, "/r".into());
    assert_eq!(r.unwrap_err(), "任务目标为空");
    m.spawn_trusted(&cfg, sandbox_cfg(), AgentMode::Sandbox, "x", "g7", "a".into(), 1, "/r".into()).unwrap();
    assert_eq!(m.tasks[0].status, TaskStatus::SandboxSetup);
    assert_eq!(m.tasks[0].sandbox_backend, "jail");
    let r = m.spawn(
        &cfg,
        sandbox_cfg(),
        AgentMode::QqOps,
        "x",
        origin("?"),
        Err("不行".into()),
        "b".into(),
        1,
        "/r".into(),
    );
    assert_eq!(r.unwrap_err(), "不行");
    assert_eq!(m.tasks.len(), 1);
}

#[test]
fn a_task_runs_only_what_was_approved() {
    let cfg = agent_cfg();
    let mut m = manager_with("member");
    assert_eq!(m.runner_next("t1", false, false, 101, &cfg), RunnerStep::Select);
    let t = &mut m.tasks[0];
    assert_eq!(t.goal, "打卡");
    match t.begin_select(true, &cfg, 101) {
        Ask::Call { messages, max_tokens } => {
            assert_eq!(messages.len(), 2);
            assert_eq!(messages[0].role, "system");
            assert_eq!(max_tokens, 512);
        }
        _ => panic!(),
    }
    assert_eq!(t.select_reply("乱", 101), PhaseNext::Continue);
    assert_eq!(t.msgs.len(), 2);
    assert_eq!(t.select_reply("{\"tools\":[\"send_group_sign\",\"瞎编\"]}", 101), PhaseNext::Continue);
    assert_eq!(t.selected_tools, vec!["send_group_sign".to_string()]);
    assert_eq!(t.status, TaskStatus::Executing);

    match t.begin_step(true, &cfg, 102) {
        Ask::Call { max_tokens, .. } => assert_eq!(max_tokens, 64),
        _ => panic!(),
    }
    // a sensitive tool is out of reach of a plain member
    assert_eq!(t.step_reply("{\"tool\":\"delete_msg\"}", "s0".into(), 102), PhaseNext::Continue);
    assert!(t.pending.is_none());
    assert!(t.msgs.last().unwrap().content.contains("敏感操作"));
    assert_eq!(t.step_reply("{\"tool\":\"什么\"}", "s0".into(), 102), PhaseNext::Continue);
    assert!(t.msgs.last().unwrap().content.contains("不存在"));
    assert_eq!(t.step_reply("?", "s0".into(), 102), PhaseNext::Continue);
    assert!(t.msgs.last().unwrap().content.contains("输出无法解析(未找到 JSON)"));

    let call = "{\"tool\":\"get_msg\",\"params\":{\"message_id\":1},\"note\":\"看\"}";
    assert_eq!(t.step_reply(call, "s1".into(), 103), PhaseNext::Continue);
    assert_eq!(t.status, TaskStatus::AwaitingApproval);
    assert_eq!(t.pending.as_ref().unwrap().permission, "常规操作");
    assert!(t.msgs[0].content.contains("\n【补充工具:get_msg】"));
    assert!(matches!(t.begin_step(true, &cfg, 103), Ask::Approve));
    assert_eq!(t.begin_approval(&cfg), 30);

    assert_eq!(m.approve_step("t1", "s9").unwrap_err(), "步骤 ID 不匹配");
    assert_eq!(m.approve_step("t9", "s1").unwrap_err(), "任务不存在");
    assert_eq!(m.approve_step("t1", "s1").unwrap(), Some(ApprovalDecision::Approved));
    assert_eq!(m.approve_step("t1", "s1").unwrap(), None);
    let t = &mut m.tasks[0];
    let step = match t.approval_event(ApprovalEvent::Decided(ApprovalDecision::Approved)) {
        ApprovalNext::Execute(s) => s,
        _ => panic!(),
    };
    t.step_done(step, Ok("好".into()), 104);
    assert_eq!(t.rounds, 1);
    assert_eq!(t.steps.len(), 1);
    let n = t.msgs.len();
    assert_eq!(t.msgs[n - 2].content, "工具调用: get_msg 参数: {\"message_id\":1}(说明:看)");
    assert_eq!(t.msgs[n - 1].content, "工具「get_msg」执行结果: 好");
    assert_eq!(m.reject_step("t1", "s1").unwrap_err(), "当前没有待审批的步骤");

    // the second round is turned down, the third does not begin
    let t = &mut m.tasks[0];
    assert_eq!(t.step_reply(call, "s2".into(), 105), PhaseNext::Continue);
    match t.approval_event(ApprovalEvent::Lost) {
        ApprovalNext::Go(n) => assert_eq!(n, PhaseNext::Continue),
        _ => panic!(),
    }
    assert!(t.msgs.last().unwrap().content.starts_with("用户拒绝了上一步操作(工具「get_msg」)。"));
    t.rounds = 2;
    assert!(matches!(t.begin_step(true, &cfg, 106), Ask::Finish));
    assert_eq!(t.status, TaskStatus::Done);
    assert_eq!(t.summary.as_deref(), Some("已达到执行轮次上限(2),任务结束"));
}

#[test]
fn approvals_that_do_not_come() {
    let mut m = manager_with("owner");
    let t = &mut m.tasks[0];
    t.status = TaskStatus::Executing;
    t.step_reply("{\"tool\":\"delete_msg\"}", "s1".into(), 1);
    assert!(t.pending.as_ref().unwrap().sensitive);
    assert!(matches!(t.approval_event(ApprovalEvent::TimedOut), ApprovalNext::Go(PhaseNext::Paused)));
    assert_eq!(t.status, TaskStatus::Paused);
    assert!(t.pending.is_some());
    assert_eq!(m.pause_task("t1").unwrap_err(), "任务已处于暂停状态");
    m.resume_task("t1").unwrap();
    assert_eq!(m.tasks[0].status, TaskStatus::AwaitingApproval);
    assert_eq!(m.resume_task("t1").unwrap_err(), "任务不在暂停状态");
    assert!(matches!(m.tasks[0].approval_event(ApprovalEvent::Stopped), ApprovalNext::Go(PhaseNext::Finish)));
    assert!(matches!(
        m.tasks[0].approval_event(ApprovalEvent::PauseChanged),
        ApprovalNext::Go(PhaseNext::Paused)
    ));
}

#[test]
fn selections_that_end_a_task() {
    let mut m = manager_with("owner");
    assert_eq!(m.tasks[0].select_reply("{\"tools\":[],\"plan\":\"\"}", 5), PhaseNext::Finish);
    assert_eq!(m.tasks[0].summary.as_deref(), Some("任务无法完成:未选择任何工具"));
    let mut m = manager_with("owner");
    assert_eq!(m.tasks[0].select_reply("{\"tools\":[],\"plan\":\"没门\"}", 5), PhaseNext::Finish);
    assert_eq!(m.tasks[0].summary.as_deref(), Some("任务无法完成: 没门"));
    let mut m = manager_with("owner");
    assert_eq!(m.tasks[0].select_reply("{\"tools\":[\"a\",\"b\\\"\"]}", 5), PhaseNext::Finish);
    assert_eq!(m.tasks[0].error.as_deref(), Some("模型选择了无效工具: [\"a\", \"b\\\"\"]"));
    let mut m = manager_with("owner");
    assert!(matches!(m.tasks[0].begin_select(false, &agent_cfg(), 5), Ask::Finish));
    assert_eq!(m.tasks[0].error.as_deref(), Some("没有可用模型"));
    let mut m = manager_with("owner");
    assert_eq!(m.tasks[0].select_failed("断网", 5), PhaseNext::Finish);
    assert_eq!(m.tasks[0].error.as_deref(), Some("工具选择调用失败: 断网"));
    let mut m = manager_with("owner");
    assert_eq!(m.tasks[0].step_failed("断网", 5), PhaseNext::Finish);
    assert_eq!(m.tasks[0].error.as_deref(), Some("执行调用失败: 断网"));
    assert_eq!(m.tasks[0].step_reply("{\"done\":true}", "s".into(), 6), PhaseNext::Finish);
    assert_eq!(m.tasks[0].summary.as_deref(), Some("任务完成"));
    m.tasks[0].goal = "点名".into();
    assert_eq!(result_line(&m.tasks[0]), "点名: 任务完成");
    m.tasks[0].status = TaskStatus::Failed;
    m.tasks[0].error = Some("断网".into());
    assert_eq!(result_line(&m.tasks[0]), "点名: 失败: 断网");
    m.tasks[0].status = TaskStatus::Stopped;
    assert_eq!(result_line(&m.tasks[0]), "点名: 已停止");
}

#[test]
fn sandbox_phases() {
    let mut m = manager_with("owner");
    let t = &mut m.tasks[0];
    assert_eq!(t.setup_done(Ok(()), 1), PhaseNext::Continue);
    assert_eq!(t.status, TaskStatus::SandboxActivate);
    assert_eq!(t.activate_done(Ok(()), 1), PhaseNext::Continue);
    assert_eq!(t.status, TaskStatus::Selecting);
    assert_eq!(t.setup_done(Err("满".into()), 1), PhaseNext::Finish);
    assert_eq!(t.error.as_deref(), Some("沙箱搭建失败: 满"));
    assert_eq!(t.activate_done(Err("满".into()), 1), PhaseNext::Finish);
    assert_eq!(t.error.as_deref(), Some("沙箱激活失败: 满"));
}

#[test]
fn the_runner_minds_pauses_and_time() {
    let cfg = agent_cfg();
    let mut m = manager_with("owner");
    assert_eq!(m.runner_next("t1", true, false, 101, &cfg), RunnerStep::Break);
    assert_eq!(m.runner_next("t9", false, false, 101, &cfg), RunnerStep::Break);
    assert_eq!(m.runner_next("t1", false, false, 160, &cfg), RunnerStep::Select);
    assert_eq!(m.runner_next("t1", false, true, 160, &cfg), RunnerStep::Break);
    assert_eq!(m.tasks[0].status, TaskStatus::Paused);
    assert_eq!(m.runner_end("t1", true), (false, false));
    m.resume_task("t1").unwrap();
    assert_eq!(m.runner_next("t1", false, false, 161, &cfg), RunnerStep::Break);
    assert_eq!(m.tasks[0].error.as_deref(), Some("任务总超时(60s)"));
    assert_eq!(m.runner_end("t1", true), (true, false));
    assert_eq!(m.wait_finished("t1", false), WaitStep::Finished(0));
    assert_eq!(m.wait_finished("t9", false), WaitStep::Gone);
}

#[test]
fn stopping_listing_and_removing() {
    let cfg = agent_cfg();
    let mut m = AgentManager::new();
    for (id, ts) in [("a", 10), ("b", 30), ("c", 30), ("d", 20)] {
        m.spawn_trusted(&cfg, sandbox_cfg(), AgentMode::Sandbox, id, "g7", id.into(), ts, "/r".into()).unwrap();
    }
    let ids: Vec<&str> = m.list().iter().map(|t| t.id.as_str()).collect();
    assert_eq!(ids, vec!["b", "c", "d", "a"]);
    assert_eq!(m.order(), vec![1, 2, 3, 0]);
    assert_eq!(m.wait_finished("a", false), WaitStep::Wait);
    assert_eq!(m.wait_finished("a", true), WaitStep::Expired);
    assert_eq!(m.remove_task("a").unwrap_err(), "任务不存在或未结束");
    assert!(m.stop_task("a", true, 40).unwrap());
    assert_eq!(m.stop_task("a", true, 40).unwrap_err(), "任务已结束");
    assert_eq!(m.pause_task("a").unwrap_err(), "任务已结束,无法暂停");
    assert_eq!(m.tasks[0].finished_ts, Some(40));
    m.remove_task("a").unwrap();
    assert_eq!(m.tasks.len(), 3);
    assert_eq!(m.stop_task("a", true, 40).unwrap_err(), "任务不存在");
    assert!(!m.stop_task("b", false, 40).unwrap());
}

#[test]
fn qq_tools_become_actions() {
    let o = origin("owner");
    let plan = |tool: &str, params: &str| plan_qq_tool(&o, tool, &parse_json(params).unwrap());
    let text = |p: &lightbot::agent::plans::QqPlan| call_text(&p.call, "e");
    let report = |p: &lightbot::agent::plans::QqPlan, answer: &str| {
        report_action(&p.report, Ok(parse_json(answer).unwrap())).unwrap()
    };

    let p = plan("send_group_msg", "{\"group_id\":7,\"message\":[{\"type\":\"image\"}]}").unwrap();
    assert_eq!(
        text(&p),
        "{\"action\":\"send_group_msg\",\"echo\":\"e\",\"params\":{\"group_id\":7,\"message\":[{\"type\":\"image\"}]}}"
    );
    assert_eq!(report(&p, "{\"message_id\":99}"), "已发送,message_id=99");
    assert_eq!(report(&p, "{}"), "已发送,message_id=null");
    assert!(report_action(&p.report, Err("断".into())).is_err());
    assert_eq!(
        plan("send_group_msg", "{\"group_id\":8,\"message\":\"x\"}").err().unwrap(),
        "只能向触发来源群(7)发送消息"
    );
    assert_eq!(plan("send_group_msg", "{\"group_id\":7}").err().unwrap(), "缺少 message");
    assert_eq!(plan("send_group_msg", "{}").err().unwrap(), "缺少 group_id");
    assert!(plan("send_private_msg", "{\"user_id\":1,\"message\":\"x\"}").is_ok());
    let mut private = origin("private");
    private.kind = MsgKind::Private;
    let v = parse_json("{\"user_id\":1,\"message\":\"x\"}").unwrap();
    assert_eq!(
        plan_qq_tool(&private, "send_private_msg", &v).err().unwrap(),
        "只能向触发者(5)发送私聊消息"
    );

    let p = plan("set_friend_remark", "{\"user_id\":3,\"remark\":\"阿伟\"}").unwrap();
    assert_eq!(report(&p, "null"), "已将好友 3 备注改为「阿伟」");
    assert_eq!(plan("set_friend_remark", "{\"user_id\":3}").err().unwrap(), "缺少 remark");
    assert_eq!(
        report(&plan("set_group_card", "{\"group_id\":7,\"user_id\":3}").unwrap(), "null"),
        "已将 3 的群名片改为「」"
    );
    assert_eq!(report(&plan("set_essence_msg", "{\"message_id\":3}").unwrap(), "null"), "已设置群精华");
    assert_eq!(report(&plan("send_group_sign", "{\"group_id\":7}").unwrap(), "null"), "群 7 打卡成功");
    assert_eq!(report(&plan("get_msg", "{\"message_id\":3}").unwrap(), "{\"a\": 1}"), "{\"a\":1}");
    assert_eq!(report(&plan("get_file", "{\"file_id\":\"f\"}").unwrap(), "[ ]"), "[]");
    let info = plan("get_group_member_info", "{\"group_id\":7,\"user_id\":3}").unwrap();
    assert_eq!(report(&info, "{}"), "{}");
    let p = plan("send_poke", "{\"user_id\":3}").unwrap();
    assert_eq!(p.call.params.len(), 1);
    assert_eq!(report(&p, "null"), "已戳 3");
    assert_eq!(plan("send_poke", "{\"user_id\":3,\"group_id\":7}").unwrap().call.params.len(), 2);
    let p = plan("upload_group_file", "{\"group_id\":7,\"file\":\"/a\"}").unwrap();
    assert_eq!(report(&p, "null"), "已上传群文件「file」");
    assert_eq!(report(&plan("delete_msg", "{\"message_id\":-3}").unwrap(), "null"), "已撤回消息 -3");
    let ban = plan("set_group_ban", "{\"group_id\":7,\"user_id\":3,\"duration\":60}").unwrap();
    assert_eq!(report(&ban, "null"), "已禁言 3 60 秒");
    let lift = plan("set_group_ban", "{\"group_id\":7,\"user_id\":3}").unwrap();
    assert_eq!(report(&lift, "null"), "已解除 3 禁言");
    let whole = plan("set_group_whole_ban", "{\"group_id\":7,\"enable\":true}").unwrap();
    assert!(matches!(whole.call.params[1].1, Part::Bool(true)));
    assert_eq!(report(&whole, "null"), "已全体禁言");
    assert_eq!(plan("set_group_whole_ban", "{\"group_id\":7}").err().unwrap(), "缺少 enable");
    let kick = plan("set_group_kick", "{\"group_id\":7,\"user_id\":3,\"reject_add_request\":false}").unwrap();
    assert_eq!(kick.call.params.len(), 3);
    assert_eq!(report(&kick, "null"), "已将 3 移出群 7");
    assert_eq!(plan("瞎编", "{}").err().unwrap(), "未知 QQ 工具: 瞎编");

    let h = plan("get_group_msg_history", "{\"group_id\":7,\"count\":2}").unwrap();
    assert!(matches!(h.report, Report::History(2)));
    let answer = "{\"messages\":[{\"user_id\":1,\"message\":\"旧\"},{\"user_id\":2,\"message\":\"中\"},{\"message\":\"新\"}]}";
    assert_eq!(report(&h, answer), "[QQ0] 新\n[QQ2] 中");
    assert_eq!(report(&h, "{}"), "(无历史消息)");
    let many = plan("get_group_msg_history", "{\"group_id\":7,\"count\":500}").unwrap();
    assert!(matches!(many.report, Report::History(50)));
}

#[test]
fn sandbox_tools_become_plans() {
    let backend = Some(Backend::Jail(JailBackend::new("/sb/t1".into(), sandbox_cfg())));
    let plan = |tool: &str, params: &str| plan_sandbox_tool(&backend, tool, &parse_json(params).unwrap());
    assert!(matches!(
        plan("sandbox_status", "{}").unwrap(),
        SandboxPlan::Reply(s) if s == "沙箱就绪: 后端=jail 根目录=/sb/t1"
    ));
    assert_eq!(plan_sandbox_tool(&None, "sandbox_status", &parse_json("{}").unwrap()).err().unwrap(), "沙箱未就绪");
    assert!(matches!(plan("sandbox_read_file", "{\"path\":\"a/b\"}").unwrap(), SandboxPlan::Read { .. }));
    assert_eq!(plan("sandbox_read_file", "{}").err().unwrap(), "缺少 path");
    assert_eq!(
        plan("sandbox_read_file", "{\"path\":\"../x\"}").err().unwrap(),
        "路径不允许包含 ..: ../x"
    );
    match plan("sandbox_write_file", "{\"path\":\"a\",\"content\":\"你好\"}").unwrap() {
        SandboxPlan::Write { content, report, .. } => {
            assert_eq!(content, "你好");
            assert_eq!(report, "已写入 a(2 字符)");
        }
        _ => panic!(),
    }
    assert!(matches!(plan("sandbox_list_dir", "{\"path\":\" \"}").unwrap(), SandboxPlan::List { dir: None }));
    assert!(plan("sandbox_list_dir", "{\"path\":\"/etc\"}").is_err());
    match plan("sandbox_run_cmd", "{\"cmd\":\"python\",\"args\":[\"-c\",1,\"x\"]}").unwrap() {
        SandboxPlan::Run { cmd, args } => {
            assert_eq!(cmd, "python");
            assert_eq!(args, vec!["-c".to_string(), "x".to_string()]);
        }
        _ => panic!(),
    }
    assert!(matches!(
        plan("sandbox_download_qq_file", "{\"file_id\":\"f\"}").unwrap(),
        SandboxPlan::FetchFile { .. }
    ));
    match plan("sandbox_send_file", "{\"target_type\":\"group\",\"target_id\":7,\"path\":\"a\"}").unwrap() {
        SandboxPlan::SendFile { target_id, name, .. } => {
            assert_eq!(target_id, 7);
            assert!(name.is_none());
        }
        _ => panic!(),
    }
    match plan("sandbox_download_url", "{\"url\":\"http://h/x.png\"}").unwrap() {
        SandboxPlan::Download { target, .. } => assert_eq!(target, "x.png"),
        _ => panic!(),
    }
    match plan("sandbox_download_url", "{\"url\":\"http://h/\"}").unwrap() {
        SandboxPlan::Download { target, .. } => assert_eq!(target, "download"),
        _ => panic!(),
    }
    match plan("sandbox_download_url", "{\"url\":\"http://h/x\",\"name\":\"a/b.txt\"}").unwrap() {
        SandboxPlan::Download { target, .. } => assert_eq!(target, "a/b.txt"),
        _ => panic!(),
    }
    for (params, why) in [
        ("{\"url\":\"http://h/x\",\"name\":\"../../evil\"}", "路径越出沙箱: downloads/../../evil"),
        ("{\"url\":\"http://h/x\",\"name\":\"a/../../../evil\"}", "路径越出沙箱: downloads/a/../../../evil"),
        ("{\"url\":\"http://h/x\",\"name\":\"/evil\"}", "不允许绝对路径: /evil"),
        ("{\"url\":\"http://h/x\",\"name\":\"C:/evil\"}", "路径不允许包含盘符: C:/evil"),
        ("{\"url\":\"http://h/x\",\"name\":\"..\\\\..\\\\evil\"}", "路径越出沙箱: downloads/../../evil"),
    ] {
        assert_eq!(plan("sandbox_download_url", params).err().unwrap(), why);
    }
    for (params, kept) in [
        ("{\"url\":\"http://h/img.jpg:large\"}", "img.jpg:large"),
        ("{\"url\":\"http://h/x\",\"name\":\"a/../b.txt\"}", "a/../b.txt"),
        ("{\"url\":\"http://h/x\",\"name\":\"../work/b.txt\"}", "../work/b.txt"),
        ("{\"url\":\"http://h/x\",\"name\":\"b.txt \"}", "b.txt "),
    ] {
        match plan("sandbox_download_url", params).unwrap() {
            SandboxPlan::Download { target, .. } => assert_eq!(target, kept),
            _ => panic!(),
        }
    }
    assert_eq!(plan("瞎编", "{}").err().unwrap(), "未知沙箱工具: 瞎编");

    let p = plan_send_file("private", 9, "/f/a", "a").unwrap();
    assert_eq!(p.call.action, "upload_private_file");
    assert!(matches!(p.report, Report::Text(s) if s == "已私聊发送给 9: a"));
    let p = plan_send_file("group", 9, "/f/a", "a").unwrap();
    assert!(matches!(p.report, Report::Text(s) if s == "已发送到群 9: a"));
    assert_eq!(
        plan_send_file("x", 9, "/f/a", "a").err().unwrap(),
        "target_type 必须为 group 或 private,得到: x"
    );
}

#[test]
fn sandbox_reports() {
    assert_eq!(read_report("abc"), "abc");
    assert_eq!(read_report(&"x".repeat(4001)).chars().count(), 4001);
    assert_eq!(list_report(&vec![]), "(空目录)");
    assert_eq!(list_report(&vec![("work".into(), true), ("a.txt".into(), false)]), "2 项: work/ a.txt");
    let out = CmdOutput { code: Some(1), stdout: "hi".into(), stderr: " ".into() };
    assert_eq!(run_report(&out), "退出码: 1\n[stdout] hi");
    assert_eq!(fetched_path(&parse_json("{\"path\":\"/p\"}").unwrap()).unwrap(), "/p");
    assert_eq!(fetched_path(&parse_json("{\"file\":\"/f\",\"path\":\"/p\"}").unwrap()).unwrap(), "/f");
    assert_eq!(fetched_path(&parse_json("{}").unwrap()).unwrap_err(), "get_file 未返回文件路径");
    assert_eq!(absent_here("/p"), "文件不存在于本机: /p(NapCat 与 LightBot 需在同一台机器)");
    assert_eq!(download_report("a"), "已下载到沙箱: downloads/a");
}

#[test]
fn long_results_are_cut_for_the_helper() {
    let mut m = manager_with("owner");
    let step = PendingStep {
        step_id: "s".into(),
        tool: "get_msg".into(),
        params: parse_json("{}").unwrap(),
        note: String::new(),
        sensitive: false,
        permission: String::new(),
    };
    m.tasks[0].step_done(step, Err("长".repeat(2500)), 3);
    assert!(!m.tasks[0].steps[0].ok);
    let told = &m.tasks[0].msgs.last().unwrap().content;
    assert!(told.ends_with("长…"));
    assert_eq!(told.chars().count(), "工具「get_msg」执行结果: ".chars().count() + 2001);
}

#[test]
fn a_call_is_tried_twice() {
    assert_eq!(retry_note(1, "选择", "超时").unwrap(), "选择调用失败,重试: 超时");
    assert_eq!(retry_note(2, "选择", "超时"), None);
}
