use shadow_proxy::base64::{base64_encode, png_data_url};
use shadow_proxy::console::{default_presets, parse_pattern, Command, Console, PingOutcome, PresetItem, RuleForm, Task};
use shadow_proxy::injector::Architecture;
use shadow_proxy::launch::{
    clean_args, clean_target, dll_names, has_exited, hook_dll_candidates, pair_credentials, preset_for, preset_named,
    relay_environment, resolve_hook_dll, resolve_target_executable,
};
use shadow_proxy::net::{Ipv4Addr, SocketAddr, SocketAddrV4};
use shadow_proxy::processes::{find_existing_pids_by_name, other_instances, scan_child_processes, ProcessEntry};
use shadow_proxy::router::{RouteAction, Router, RulePattern};
use shadow_proxy::session::{SessionTracker, TimeOfDay};

#[test]
fn test_base64_encode_basic() {
    assert_eq!(base64_encode(b""), "");
    assert_eq!(base64_encode(b"f"), "Zg==");
    assert_eq!(base64_encode(b"fo"), "Zm8=");
    assert_eq!(base64_encode(b"foo"), "Zm9v");
    assert_eq!(base64_encode(b"foob"), "Zm9vYg==");
    assert_eq!(base64_encode(b"fooba"), "Zm9vYmE=");
    assert_eq!(base64_encode(b"foobar"), "Zm9vYmFy");
}

#[test]
fn pictures_as_urls() {
    let png = b"\x89PNG\r\n\x1a\n...";
    assert_eq!(png_data_url(png).unwrap(), format!("data:image/png;base64,{}", base64_encode(png)));
    assert_eq!(png_data_url(b"\x89PNG\r\n\x1a"), None);
    assert_eq!(png_data_url(b"GIF89a......"), None);
    assert_eq!(base64_encode(&[0xfb, 0xff, 0xfe]), "+//+");
}

struct World {
    console: Console,
    rules: Router,
    tracker: SessionTracker,
}

impl World {
    fn new() -> World {
        World { console: Console::new(Vec::new()), rules: Router::default(), tracker: SessionTracker::new(200) }
    }

    fn run(&mut self, command: Command) -> Task {
        self.console.handle_command(command, &mut self.rules, &mut self.tracker)
    }

    fn log(&self) -> &str {
        self.console.last_log.as_deref().unwrap()
    }

    fn add_preset(&mut self, name: Option<&str>, target: &str, args: Option<&str>, file: Option<&str>) -> Task {
        self.run(Command::AddPreset {
            name: name.map(String::from),
            target: target.into(),
            args: args.map(String::from),
            file_name: file.map(String::from),
        })
    }
}

#[test]
fn presets_are_kept() {
    let mut w = World::new();
    assert_eq!(w.log(), "[SYS] 系统就绪，等待操作");
    assert!(matches!(w.add_preset(None, "  ", None, None), Task::Refresh));
    assert!(matches!(w.add_preset(Some(" "), " C:\\A.exe ", Some(" -x "), Some("A.exe")), Task::SavePresets));
    assert_eq!(w.log(), "[PRESET] 已添加快捷预设: A.exe");
    w.add_preset(Some("B"), "b", None, None);
    w.add_preset(None, "c", None, None);
    assert_eq!(w.console.presets[0].name, "c");
    // The same target with the same arguments comes to the front.
    w.add_preset(Some("A again"), "c:\\a.EXE", Some("-x"), None);
    assert_eq!(w.console.presets.len(), 3);
    assert_eq!(
        w.console.presets[0],
        PresetItem { name: "A again".into(), target: "c:\\a.EXE".into(), args: "-x".into() }
    );
    w.add_preset(None, "c:\\a.EXE", Some("-y"), None);
    assert_eq!(w.console.presets.len(), 4);
    for i in 0..40 {
        w.add_preset(None, &format!("p{}", i), None, None);
    }
    assert_eq!(w.console.presets.len(), 32);
    assert!(matches!(w.run(Command::DeletePreset { index: 32 }), Task::Refresh));
    assert!(matches!(w.run(Command::DeletePreset { index: 0 }), Task::SavePresets));
    assert_eq!(w.log(), "[PRESET] 已删除快捷预设: p39");
    assert_eq!(w.console.presets[0].name, "p38");
    let defaults = default_presets(Some("E"));
    assert_eq!(defaults.len(), 2);
    assert_eq!(defaults[0].args, "--no-proxy-server");
    assert_eq!(default_presets(None)[0].target, "C:\\Windows\\System32\\curl.exe");
}

fn form(pattern_type: &str, pattern_val: &str, action: &str) -> RuleForm {
    RuleForm {
        name: "n".into(),
        pattern_type: pattern_type.into(),
        pattern_val: pattern_val.into(),
        action: action.into(),
        millis: 1700000000123,
    }
}

#[test]
fn rules_are_edited() {
    let mut w = World::new();
    assert!(matches!(w.run(Command::AddRule(form("PORT", " 8080 ", "BLOCK"))), Task::SaveRules));
    let r = &w.rules.rules[5];
    assert_eq!(r.id, "rule-1700000000123");
    assert_eq!((&r.pattern, r.action, r.enabled), (&RulePattern::Port(8080), RouteAction::Block, true));
    assert_eq!(w.log(), "[RULE] 已新增分流规则: n");
    w.run(Command::ToggleRule { id: "rule-1700000000123".into(), enabled: false });
    assert!(!w.rules.rules[5].enabled);
    assert_eq!(w.log(), "[RULE] 规则状态已更新 (启用=false)");
    w.run(Command::DeleteRule { id: "rule-1700000000123".into() });
    assert_eq!(w.rules.rules.len(), 6);
    assert_eq!(w.log(), "[RULE] 已删除分流规则");
    w.run(Command::SetRulePreset { preset: "Direct".into() });
    assert_eq!(w.rules.rules.len(), 1);
    assert_eq!(w.log(), "[RULE] 已切换分流预设为: Direct");
    w.run(Command::SetRulePreset { preset: "nonsense".into() });
    assert_eq!(w.rules.rules.len(), 6);
    w.tracker.start_session(TimeOfDay::at(0), "a", "r", RouteAction::Block, true);
    assert!(matches!(w.run(Command::ClearSessions), Task::Refresh));
    assert!(w.tracker.list_sessions(9).is_empty());
    assert_eq!(w.log(), "[SESSION] 实时连接历史已清空");
}

#[test]
fn patterns_as_they_are_written() {
    let cidr = |ip: &str, prefix_len| RulePattern::IpCidr { ip: ip.into(), prefix_len };
    let range = |start, end| RulePattern::PortRange { start, end };
    let cases = [
        ("domain_suffix", "..cn", RulePattern::DomainSuffix("cn".into())),
        ("domain_keyword", ".x", RulePattern::DomainKeyword(".x".into())),
        ("domain_exact", "a.b", RulePattern::DomainExact("a.b".into())),
        ("ip_cidr", " 10.0.0.0 / 8 ", cidr("10.0.0.0", 8)),
        ("ip_cidr", "10.0.0.1", cidr("10.0.0.1", 32)),
        ("ip_cidr", "10.0.0.1/x/8", cidr("10.0.0.1", 32)),
        ("ip_cidr", "10.0.0.1/256", cidr("10.0.0.1", 32)),
        ("port", "+443", RulePattern::Port(443)),
        ("port", "65536", RulePattern::Port(80)),
        ("port_range", "8000-9000", range(8000, 9000)),
        ("port_range", " 8000 .. 9000 ", range(8000, 9000)),
        ("port_range", "8000...9000", range(8000, 8000)),
        ("port_range", "8000", range(8000, 8000)),
        ("port_range", "x-7", range(1, 7)),
        ("PORT", "1", RulePattern::Final),
    ];
    for (kind, value, expected) in cases {
        assert_eq!(parse_pattern(kind, value), expected, "{} {}", kind, value);
    }
}

#[test]
fn commands_for_the_outside() {
    let mut w = World::new();
    assert!(matches!(w.run(Command::GetState), Task::CheckProcesses));
    assert!(matches!(w.run(Command::BrowseFile), Task::BrowseFile));
    assert!(matches!(w.run(Command::WindowReady), Task::ShowWindow));
    assert!(matches!(w.run(Command::PingUpstream { proxy: "p".into() }), Task::Ping { proxy } if proxy == "p"));
    assert!(matches!(w.run(Command::StopRelay), Task::Refresh));
    assert_eq!(w.console.relay_to_start(), Some(("127.0.0.1:7897".into(), true)));
    let local = SocketAddr::V4(SocketAddrV4::new(Ipv4Addr::new(127, 0, 0, 1), 4444));
    let up = SocketAddr::V4(SocketAddrV4::new(Ipv4Addr::new(127, 0, 0, 1), 7890));
    w.console.relay_started("127.0.0.1:7890", false, local, up);
    assert_eq!(w.log(), "[RELAY] 本地透明中继已启动在 127.0.0.1:4444, 上游: 127.0.0.1:7890");
    assert_eq!(w.console.relay_to_start(), None);
    let launch = |proxy: Option<&str>, strict_dns| Command::LaunchProcess {
        target: "t".into(),
        args: None,
        proxy: proxy.map(String::from),
        strict_dns,
    };
    match w.run(launch(Some(" 127.0.0.1:7890 "), Some(true))) {
        Task::Launch { restart, target, args } => assert_eq!((restart, target, args), (None, "t".into(), None)),
        other => panic!("{:?}", other),
    }
    assert!(w.console.strict_dns);
    match w.run(launch(Some("1.1.1.1:1"), None)) {
        Task::Launch { restart, .. } => assert_eq!(restart, Some(("1.1.1.1:1".into(), true))),
        other => panic!("{:?}", other),
    }
    assert_eq!(w.console.upstream_proxy, "1.1.1.1:1");
    assert!(matches!(w.run(launch(Some(" "), None)), Task::Launch { restart: None, .. }));
    assert!(matches!(w.run(Command::StopRelay), Task::StopRelay));
    assert_eq!(w.log(), "[RELAY] 本地透明中继已停止");
    assert!(w.console.relay.is_none());
    assert!(matches!(w.run(Command::StartRelay { proxy: "q".into(), strict_dns: true }),
        Task::StartRelay { proxy, strict_dns: true } if proxy == "q"));
    w.console.report_error("oops");
    assert_eq!(w.log(), "[ERR] oops");
}

#[test]
fn tests_of_the_proxy() {
    let mut w = World::new();
    w.console.pinged(PingOutcome::Answered(12));
    assert_eq!((w.log(), w.console.ping_ms), ("[PING] 上游代理握手成功，延迟: 12 ms", Some(12)));
    w.console.pinged(PingOutcome::Failed("refused".into()));
    assert_eq!((w.log(), w.console.ping_ms), ("[PING] 代理连接失败: refused", None));
    w.console.pinged(PingOutcome::TimedOut);
    assert_eq!(w.log(), "[PING] 代理连接超时 (3000ms)");
    w.console.pinged(PingOutcome::BadAddress("bad".into()));
    assert_eq!(w.log(), "[PING] 代理地址格式无效: bad");
}

fn entry(pid: u32, parent: u32, name: &str) -> ProcessEntry {
    ProcessEntry { pid, parent, name: name.into() }
}

#[test]
fn processes_come_and_go() {
    let mut w = World::new();
    w.console.warn_of_instances("a.exe", &[]);
    assert_eq!(w.log(), "[SYS] 系统就绪，等待操作");
    w.console.warn_of_instances("a.exe", &[3, 44]);
    assert_eq!(
        w.log(),
        "[警告] 发现已有运行中的 a.exe 实例 (PID: [3, 44])！建议先退出旧实例再启动，以确保全量劫持流量。"
    );
    w.console.launched(10, "a.exe", "a", "\"a\"", Architecture::X64, 77);
    assert_eq!(w.log(), "[INJECT] 成功注入 \"a\" (PID: 10, 架构: X64)");
    w.console.launched(11, "b.exe", "b", "\"b\"", Architecture::X86, 0);
    assert_eq!(w.console.handle_to_poll(0), Some(77));
    assert_eq!(w.console.handle_to_poll(1), None);
    assert_eq!(w.console.update_process_status(0, Some(259)), None);
    assert_eq!(w.console.update_process_status(0, None), None);
    assert_eq!(w.console.active_pids(), vec![10, 11]);
    w.console.adopt_child(&entry(12, 10, "child.exe"), 88);
    assert_eq!(w.log(), "[INJECT] 自动纳管并注入子进程 child.exe (PID: 12)");
    w.console.adopt_child(&entry(12, 10, "child.exe"), 99);
    assert_eq!(w.console.processes.len(), 3);
    assert!(w.console.is_tracked(12) && !w.console.is_tracked(13));
    assert_eq!(w.console.update_process_status(0, Some(3)), Some(77));
    assert_eq!(w.log(), "[PROC] 进程 a.exe (PID: 10) 退出，代码: 3");
    assert_eq!(w.console.update_process_status(0, Some(4)), None);
    assert_eq!(w.console.active_pids(), vec![11, 12]);
    assert!(matches!(w.run(Command::KillProcess { pid: 10 }), Task::Refresh));
    assert!(matches!(w.run(Command::KillProcess { pid: 12 }), Task::Kill { handle: 88 }));
    assert_eq!(w.log(), "[PROC] 已终止 PID 12");
    assert_eq!(w.console.processes[2].exit_code, 1);
    assert!(matches!(w.run(Command::KillProcess { pid: 11 }), Task::Refresh));
    assert!(!w.console.processes[1].running);
    let state = w.console.full_state(&w.rules, (1, 2, 3, 4), Vec::new());
    assert_eq!((state.bytes_sent, state.speed_up_bps, state.relay_active), (0, 1, false));
    assert_eq!(state.processes.len(), 3);
    assert_eq!(state.processes[0].exit_code, 3);
    assert_eq!(state.rules.len(), 6);
    let local = SocketAddr::V4(SocketAddrV4::new(Ipv4Addr::new(127, 0, 0, 1), 4444));
    w.console.relay_started("p", true, local, local);
    let state = w.console.full_state(&w.rules, (1, 2, 3, 4), Vec::new());
    assert_eq!((state.bytes_sent, state.bytes_received), (3, 4));
    assert_eq!(state.relay_addr.as_deref(), Some("127.0.0.1:4444"));
    assert_eq!(w.console.close(), vec![88]);
    assert!(w.console.relay.is_none());
    assert!(w.console.close().is_empty());
}

#[test]
fn descendants_are_found() {
    let all = [
        entry(5, 4, "e"),
        entry(2, 1, "b"),
        entry(3, 2, "c"),
        entry(4, 3, "d"),
        entry(1, 0, "a"),
        entry(9, 8, "x"),
        entry(2, 1, "b again"),
    ];
    let found = scan_child_processes(&[1], &all);
    let pids: Vec<u32> = found.iter().map(|e| e.pid).collect();
    assert_eq!(pids, vec![2, 3, 4, 5]);
    assert_eq!(found[0].name, "b");
    assert!(scan_child_processes(&[], &all).is_empty());
    assert_eq!(scan_child_processes(&[1, 2, 3, 4, 5], &all).len(), 0);
    // Two processes that are each other's parent are found once each.
    let ring = [entry(1, 2, "a"), entry(2, 1, "b")];
    assert_eq!(scan_child_processes(&[1], &ring).len(), 1);
}

#[test]
fn processes_by_name() {
    let all = [entry(5, 4, "Shadow-GUI.exe"), entry(2, 1, "b"), entry(3, 2, "shadow-gui.exe")];
    let pids = find_existing_pids_by_name(&all, "shadow-gui.exe");
    assert_eq!(pids, vec![5, 3]);
    assert_eq!(other_instances(&pids, 5), vec![3]);
    assert_eq!(other_instances(&pids, 7), vec![5, 3]);
}

#[test]
fn the_hook_library_is_found() {
    assert_eq!(dll_names(Architecture::X64), Ok(("shadow_hook.dll", "ghost_hook.dll")));
    assert_eq!(dll_names(Architecture::X86), Ok(("shadow_hook32.dll", "ghost_hook32.dll")));
    assert_eq!(dll_names(Architecture::Arm64), Err("暂不支持对目标架构 Arm64 的自动 DLL 查找".to_string()));
    let c = hook_dll_candidates(("a", "b"), Some("T"), Some("H"));
    assert_eq!(c.len(), 18);
    assert_eq!(
        &c[..6],
        &[
            "bin\\a",
            "target\\release\\a",
            "target\\debug\\a",
            "T\\release\\a",
            "T\\debug\\a",
            "H\\.cargo_target\\shadow-proxy\\release\\a",
        ]
    );
    assert_eq!(hook_dll_candidates(("a", "b"), None, None)[3], "bin\\b");
    let pick = |c: Vec<(u8, bool)>| resolve_hook_dll(Architecture::X64, None, c, "!");
    assert_eq!(pick(vec![(1, false), (2, true), (3, true)]), Ok(2));
    assert_eq!(pick(vec![(1, false)]), Err("未找到适用于 X64 架构的 Hook 动态库!".to_string()));
    assert_eq!(resolve_hook_dll(Architecture::Arm64, Some((9, true, "")), vec![], ""), Ok(9));
    assert_eq!(
        resolve_hook_dll(Architecture::X64, Some((9, false, "\"h\"")), vec![(1, true)], ""),
        Err("指定的动态库路径不存在: \"h\"".to_string())
    );
    assert_eq!(
        resolve_hook_dll(Architecture::Arm64, None, vec![(1, true)], ""),
        Err("暂不支持对目标架构 Arm64 的自动 DLL 查找".to_string())
    );
}

#[test]
fn the_target_is_found() {
    assert_eq!(clean_target("  \"'C:\\a b.exe'\" "), "C:\\a b.exe");
    assert_eq!(clean_target("\" x\""), " x");
    let find = |clean: &str, direct, relative, rest| resolve_target_executable(clean, (0, direct), relative, rest);
    assert_eq!(find("", true, true, vec![]), Err("请输入或选择目标程序可执行文件路径".to_string()));
    assert_eq!(find("a", true, true, vec![(1, true)]), Ok(0));
    assert_eq!(find("a", false, true, vec![(1, false), (2, true)]), Ok(2));
    assert_eq!(find("a", false, false, vec![(1, true)]), Err("目标程序路径不存在: a".to_string()));
    assert_eq!(find("a", false, true, vec![]), Err("目标程序路径不存在: a".to_string()));
    assert_eq!(clean_args(Some(" ")), None);
    assert_eq!(clean_args(Some(" x ")), Some(" x "));
    assert_eq!(clean_args(None), None);
}

#[test]
fn what_the_launched_process_is_told() {
    let env = relay_environment(4444, true);
    assert_eq!(env[0], ("SHADOW_RELAY_PORT", "4444".to_string()));
    assert_eq!(env[1], ("GHOST_RELAY_PORT", "4444".to_string()));
    assert_eq!(env[2], ("SHADOW_STRICT_DNS", "1".to_string()));
    assert_eq!(env[3], ("GHOST_STRICT_DNS", "1".to_string()));
    assert_eq!(relay_environment(1, false)[2].1, "0");
    assert_eq!(pair_credentials(Some("u".into()), Some("p".into())), Some(("u".into(), "p".into())));
    assert_eq!(pair_credentials(Some("u".into()), None), None);
    assert_eq!(pair_credentials(None, Some("p".into())), None);
    assert!(has_exited(Some(0)) && !has_exited(Some(259)) && !has_exited(None));
    assert_eq!(preset_for("GLOBAL_proxy").unwrap().rules.len(), 2);
    assert_eq!(preset_for("Smart").unwrap().rules.len(), 6);
    assert!(preset_for("rules.json").is_none());
    assert!(preset_named("SMART").is_none());
}
