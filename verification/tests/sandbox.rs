use lightbot::config::SandboxConfig;
use lightbot::sandbox::{
    base_name, check_base, check_cmd_allowlist, cmd_result, confirm_inside, factory, is_inside, leads_out, path_parts,
    resolve_in_root, Backend, CmdEnd, CmdOutput, DockerBackend, JailBackend, SandboxBackend, Workdir,
};

fn cfg() -> SandboxConfig {
    SandboxConfig {
        cmd_allowlist: "python".into(),
        cmd_timeout_secs: 20,
        docker_image: "  ".into(),
        docker_memory: String::new(),
        mem_limit_mb: 0,
        cpu_limit_secs: 0,
        destroy_on_done: false,
    }
}

fn names(v: &[&str]) -> Vec<String> {
    v.iter().map(|s| s.to_string()).collect()
}

#[test]
fn allowlist_check() {
    let list = "python,py,node,pwsh";
    assert_eq!(check_cmd_allowlist(list, "python").unwrap(), "python");
    assert_eq!(check_cmd_allowlist(list, "python.exe").unwrap(), "python.exe");
    assert_eq!(check_cmd_allowlist(list, "pwsh").unwrap(), "pwsh");
    assert!(check_cmd_allowlist(list, "powershell").is_err());
    assert!(check_cmd_allowlist(list, "python3.12").is_err());
    assert!(check_cmd_allowlist(list, "cmd").is_err());
    assert!(check_cmd_allowlist(list, "").is_err());
    assert_eq!(check_cmd_allowlist("", "anything").unwrap(), "anything");
}

#[test]
fn commands_go_by_their_last_name() {
    assert_eq!(check_cmd_allowlist("Python", "/usr/bin/PYTHON.EXE").unwrap(), "PYTHON.EXE");
    assert_eq!(
        check_cmd_allowlist("python", " sh ").unwrap_err(),
        "命令「sh」不在白名单内(允许: python)"
    );
    assert_eq!(check_cmd_allowlist("python", "  ").unwrap_err(), "命令不能为空");
    assert_eq!(check_base("py", "x/py", "py".into()).unwrap(), "py");
    assert_eq!(base_name("a/b.txt", "file"), "b.txt");
    assert_eq!(base_name("..", "file"), "file");
    assert_eq!(base_name("a/./", "file"), "a");
    assert_eq!(base_name("a/..", "file"), "file");
    assert_eq!(base_name("./", "file"), "file");
    assert_eq!(base_name("", "file"), "file");
    assert!(check_cmd_allowlist("python", "/opt/python/sh").is_err());
    let name = base_name("a\\b/c\\d.txt", "file");
    assert!(name == "d.txt" || name == "c\\d.txt");
    assert_eq!(base_name("a\\b/d.txt", "file"), "d.txt");
    assert!(check_cmd_allowlist("python", "C:\\python\\sh").is_err());
}

#[test]
fn names_that_lead_out() {
    for name in ["a", "a/b", "a/../b", "../b", "./a/./..", "img.jpg:large", "a/C:b", "", " .. "] {
        assert_eq!(leads_out("downloads", name), None, "{name}");
    }
    assert_eq!(leads_out("downloads", "../../b").unwrap(), "路径越出沙箱: downloads/../../b");
    assert_eq!(leads_out("downloads", "a/../../../b/c/d").unwrap(), "路径越出沙箱: downloads/a/../../../b/c/d");
    assert_eq!(leads_out("downloads", "..\\..\\b").unwrap(), "路径越出沙箱: downloads/../../b");
    assert_eq!(leads_out("downloads", "/b").unwrap(), "不允许绝对路径: /b");
    assert_eq!(leads_out("downloads", "\\b").unwrap(), "不允许绝对路径: /b");
    assert_eq!(leads_out("downloads", "c:b").unwrap(), "路径不允许包含盘符: c:b");
}

#[test]
fn resolve_path_locks_inside_root() {
    assert_eq!(resolve_in_root("/root", "a/b.txt").unwrap(), "/root/a/b.txt");
    assert!(resolve_in_root("/root", "../evil").is_err());
    assert!(resolve_in_root("/root", "C:/windows").is_err());
    assert!(resolve_in_root("/root", "/etc/passwd").is_err());
    assert!(resolve_in_root("/root", "a/../../evil").is_err());
    assert!(resolve_in_root("/root", "").is_err());
    let root = names(&["root", "sb"]);
    assert!(is_inside(&names(&["root", "sb", "a"]), &root));
    assert!(is_inside(&root, &root));
    assert!(!is_inside(&names(&["root", "sbx"]), &root));
    assert!(confirm_inside(&names(&["root", "sb", "a"]), &root, "a").is_ok());
    assert_eq!(confirm_inside(&names(&["etc"]), &root, "a\\b").unwrap_err(), "路径越出沙箱: a/b");
}

#[test]
fn reasons_against_a_path() {
    assert_eq!(path_parts(" a\\.//b ").unwrap(), names(&["a", "b"]));
    assert_eq!(path_parts("  ").unwrap_err(), "路径不能为空");
    assert_eq!(path_parts("./.").unwrap_err(), "路径不能为空");
    assert_eq!(path_parts("\\x").unwrap_err(), "不允许绝对路径: /x");
    assert_eq!(path_parts("a/..").unwrap_err(), "路径不允许包含 ..: a/..");
    assert_eq!(path_parts("c:x").unwrap_err(), "路径不允许包含盘符: c:x");
    assert!(path_parts("a..b").is_ok());
}

#[test]
fn output_in_words() {
    let o = CmdOutput { code: None, stdout: "abc".into(), stderr: "x".into() };
    assert_eq!(o.summary(2), "退出码: 被终止\n[stdout] ab…\n[stderr] x");
    let o = CmdOutput { code: Some(-1), stdout: " \n".into(), stderr: String::new() };
    assert_eq!(o.summary(2), "退出码: -1");
}

#[test]
fn jail_plans() {
    let jail = JailBackend::new("/sb".into(), cfg());
    assert_eq!(jail.name(), "jail");
    assert_eq!(jail.root(), "/sb");
    assert!(jail.activate(true).is_ok());
    assert!(jail.activate(false).unwrap_err().contains("work"));
    let wd = Workdir { given: "/sb/work".into(), real: "/real/sb/work".into(), inside: true, relative: None };
    let l = jail.run_cmd(&wd, "python", &names(&["-V"])).unwrap();
    assert_eq!(l.program, "python");
    assert_eq!(l.workdir, "/real/sb/work");
    assert_eq!(l.timeout_secs, 20);
    assert_eq!(l.args, names(&["-V"]));
    let err = jail.run_cmd(&wd, "powershell", &vec![]).err().unwrap();
    assert!(err.contains("白名单"));
    let out = Workdir { given: "/etc".into(), real: "/etc".into(), inside: false, relative: None };
    assert_eq!(jail.run_cmd(&out, "python", &vec![]).err().unwrap(), "工作目录越出沙箱: /etc");
}

#[test]
fn docker_plans() {
    let b = factory("docker", cfg(), "/sb".into()).unwrap();
    assert_eq!(b.name(), "docker");
    let d = match b {
        Backend::Docker(d) => d,
        _ => panic!(),
    };
    assert_eq!(d.image(), "python:3.12-alpine");
    assert_eq!(d.setup().args, names(&["version", "--format", "{{.Server.Version}}"]));
    assert_eq!(d.activate().args, names(&["pull", "python:3.12-alpine"]));
    let wd = Workdir { given: "/sb/work".into(), real: "/sb/work".into(), inside: true, relative: Some("work".into()) };
    let l = d.run_cmd(&wd, "ls", &names(&["-l"])).unwrap();
    assert_eq!(
        l.args,
        names(&[
            "run", "--rm", "--network", "none", "-m", "512m", "--cpus", "1", "-v", "/sb:/work", "-w", "/work/work",
            "python:3.12-alpine", "ls", "-l"
        ])
    );
    assert_eq!(d.run_cmd(&wd, " ", &vec![]).err().unwrap(), "命令不能为空");
    let ok = CmdOutput { code: Some(0), stdout: String::new(), stderr: String::new() };
    let bad = CmdOutput { code: Some(1), stdout: String::new(), stderr: "e".into() };
    assert!(DockerBackend::setup_result(&ok).is_ok());
    assert_eq!(DockerBackend::setup_result(&bad).unwrap_err(), "Docker 不可用: 退出码: 1\n[stderr] e");
    assert!(DockerBackend::activate_result(&ok).is_ok());
    assert_eq!(DockerBackend::activate_result(&bad).unwrap_err(), "拉取镜像失败: 退出码: 1\n[stderr] e");
    let j = factory("anything", cfg(), "/sb".into()).unwrap();
    assert_eq!(j.name(), "jail");
    assert_eq!(j.root(), "/sb");
}

#[test]
fn ends_of_commands() {
    let r = cmd_result(CmdEnd::Exited(Some(3)), 9, "o".into(), "e".into()).unwrap();
    assert_eq!(r.code, Some(3));
    assert_eq!(r.stdout, "o");
    assert_eq!(
        cmd_result(CmdEnd::TimedOut(10), 9, "o".into(), "e".into()).unwrap_err(),
        "命令超时(10s > 9s),已终止"
    );
    assert_eq!(cmd_result(CmdEnd::Lost("x".into()), 9, "".into(), "".into()).unwrap_err(), "等待命令失败: x");
}
