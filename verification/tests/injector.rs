use shadow_proxy::injector::{
    appcontainer_grant, build_command_line, can_inject, child_creation, cleared_variables, detect_architecture_from_bytes,
    enable_loopback_exemption, inject_existing_pid, merge_args, spawn_and_inject, spawn_and_inject_with_args, step_error,
    Architecture, Goal, GuardRelease, Injection, InjectorError, Op, ProcessGuard, SpawnRequest,
};
use shadow_proxy::protocol::IoErrorKind;
use shadow_proxy::shortcut::{is_lnk, resolve_shortcut, resolve_single_lnk};

fn pe(machine: u16) -> Vec<u8> {
    let mut data = vec![0u8; 128];
    data[0..2].copy_from_slice(b"MZ");
    data[60..64].copy_from_slice(&64u32.to_le_bytes());
    data[64..68].copy_from_slice(b"PE\0\0");
    data[68..70].copy_from_slice(&machine.to_le_bytes());
    data
}

#[test]
fn test_pe_detect_x86_valid() {
    let mut data = vec![0u8; 128];
    data[0..2].copy_from_slice(b"MZ");
    data[60..64].copy_from_slice(&64u32.to_le_bytes());
    data[64..68].copy_from_slice(b"PE\0\0");
    data[68..70].copy_from_slice(&0x014cu16.to_le_bytes());

    let arch = detect_architecture_from_bytes(&data).unwrap();
    assert_eq!(arch, Architecture::X86);
}

#[test]
fn test_pe_detect_x64_valid() {
    let mut data = vec![0u8; 128];
    data[0..2].copy_from_slice(b"MZ");
    data[60..64].copy_from_slice(&64u32.to_le_bytes());
    data[64..68].copy_from_slice(b"PE\0\0");
    data[68..70].copy_from_slice(&0x8664u16.to_le_bytes());

    let arch = detect_architecture_from_bytes(&data).unwrap();
    assert_eq!(arch, Architecture::X64);
}

#[test]
fn test_pe_detect_arm64_valid() {
    let mut data = vec![0u8; 128];
    data[0..2].copy_from_slice(b"MZ");
    data[60..64].copy_from_slice(&64u32.to_le_bytes());
    data[64..68].copy_from_slice(b"PE\0\0");
    data[68..70].copy_from_slice(&0xaa64u16.to_le_bytes());

    let arch = detect_architecture_from_bytes(&data).unwrap();
    assert_eq!(arch, Architecture::Arm64);
}

#[test]
fn test_pe_detect_missing_mz() {
    let data = vec![0u8; 128];
    let err = detect_architecture_from_bytes(&data).unwrap_err();
    assert!(err.message().contains("缺少有效的 MZ"));
}

#[test]
fn test_pe_detect_truncated_offset() {
    let mut data = vec![0u8; 64];
    data[0..2].copy_from_slice(b"MZ");
    data[60..64].copy_from_slice(&1000u32.to_le_bytes());
    let err = detect_architecture_from_bytes(&data).unwrap_err();
    assert!(err.message().contains("PE 偏移溢出"));
    assert_eq!(err.message(), "PE 文件解析失败: PE 偏移溢出 (文件大小: 64, PE 偏移: 1000)");
}

#[test]
fn test_pe_detect_missing_pe_magic() {
    let mut data = vec![0u8; 128];
    data[0..2].copy_from_slice(b"MZ");
    data[60..64].copy_from_slice(&64u32.to_le_bytes());
    data[64..68].copy_from_slice(b"FAIL");
    let err = detect_architecture_from_bytes(&data).unwrap_err();
    assert!(err.message().contains("缺少有效的 PE 签名"));
}

#[test]
fn an_unknown_machine() {
    let err = detect_architecture_from_bytes(&pe(0x01c0)).unwrap_err();
    assert_eq!(err.message(), "PE 文件解析失败: 不支持的机器架构代码: 0x01c0");
}

#[test]
fn test_non_lnk_file_returns_none() {
    let fake = String::from("C:\\Windows\\System32\\cmd.exe");
    let extension = |p: &String| p.rsplit_once('.').map(|(_, e)| e.to_string());
    assert!(resolve_shortcut(fake.clone(), |_| true, extension, |_| Some((fake.clone(), None))).is_none());
    assert!(resolve_shortcut(fake, |_| false, extension, |_| None).is_none());
}

/// Files by name, with the file that each links to and its arguments.
fn follow(start: &str, links: &[(&str, &str, Option<&str>)]) -> Option<(String, Option<String>)> {
    resolve_shortcut(
        start.to_string(),
        |p| !p.contains("missing"),
        |p: &String| p.rsplit_once('.').map(|(_, e)| e.to_string()),
        |p| {
            links
                .iter()
                .find(|l| l.0 == p)
                .map(|l| (l.1.to_string(), l.2.map(|a| a.to_string())))
        },
    )
}

#[test]
fn shortcuts_are_followed() {
    let links = [
        ("a.lnk", "b.LNK", None),
        ("b.LNK", "c.lnk", Some("-first")),
        ("c.lnk", "real.exe", Some("-second")),
        ("lost.lnk", "missing.exe", None),
        ("bare.lnk", "program", None),
    ];
    assert_eq!(follow("a.lnk", &links), Some(("real.exe".into(), Some("-first".into()))));
    assert_eq!(follow("c.lnk", &links), Some(("real.exe".into(), Some("-second".into()))));
    assert_eq!(follow("lost.lnk", &links), None);
    assert_eq!(follow("bare.lnk", &links), None);
    assert_eq!(follow("broken.lnk", &links), None);
    assert_eq!(follow("missing.lnk", &links), None);
    assert_eq!(follow("noextension", &links), None);
    // The Kelvin sign is a k in lower case.
    let kelvin = [("x.ln\u{212a}", "real.exe", None)];
    assert_eq!(follow("x.ln\u{212a}", &kelvin), Some(("real.exe".into(), None)));
    assert!(is_lnk("lnk") && !is_lnk("LNK"));
}

#[test]
fn five_shortcuts_are_followed_and_no_more() {
    let names: Vec<String> = (0..8).map(|i| format!("{}.lnk", i)).collect();
    let links: Vec<(&str, &str, Option<&str>)> =
        (0..7).map(|i| (names[i].as_str(), names[i + 1].as_str(), None)).collect();
    assert_eq!(follow("0.lnk", &links), Some(("5.lnk".into(), None)));
}

#[test]
fn what_a_shortcut_says() {
    let wide = |s: &str| -> Vec<u16> { s.encode_utf16().chain([0, 0x58]).collect() };
    let target = wide("  C:\\app.exe ");
    let args = wide(" -v  ");
    assert_eq!(resolve_single_lnk(&target, Some(&args)), Some(("C:\\app.exe".into(), Some("-v".into()))));
    assert_eq!(resolve_single_lnk(&target, Some(&wide("  "))), Some(("C:\\app.exe".into(), None)));
    assert_eq!(resolve_single_lnk(&target, None), Some(("C:\\app.exe".into(), None)));
    assert_eq!(resolve_single_lnk(&wide(" "), Some(&args)), None);
    let odd = [0xd800, 0x41, 0xd83d, 0xde00];
    assert_eq!(resolve_single_lnk(&odd, None), Some(("\u{fffd}A\u{1f600}".into(), None)));
}

fn request<'a>(image: &'a [u8]) -> SpawnRequest<'a> {
    SpawnRequest {
        target_exists: true,
        target_quoted: "\"t.exe\"",
        dll_exists: true,
        dll_quoted: "\"h.dll\"",
        executable: "C:\\t.exe",
        shortcut: None,
        image: Ok(image),
        image_error: "",
        wide_injector: true,
    }
}

#[test]
fn test_spawn_and_inject_rejects_mismatched_arch() {
    let data = pe(0x014c);
    let res = spawn_and_inject(&request(&data));
    assert!(res.is_err());
    let err_msg = res.unwrap_err().message();
    assert!(err_msg.contains("架构不匹配"), "错误信息不符合预期: {}", err_msg);
}

#[test]
fn starts_that_can_and_cannot_be_made() {
    let x64 = pe(0x8664);
    let plan = spawn_and_inject_with_args(&request(&x64), Some(" -a  ")).unwrap();
    assert_eq!(plan.architecture, Architecture::X64);
    assert_eq!(plan.command_line, "\"C:\\t.exe\" -a");
    let linked = SpawnRequest { shortcut: Some(Some("-l")), ..request(&x64) };
    assert_eq!(spawn_and_inject_with_args(&linked, Some("-a")).unwrap().command_line, "\"C:\\t.exe\" -l -a");
    assert_eq!(spawn_and_inject(&linked).unwrap().command_line, "\"C:\\t.exe\" -l");
    let gone = SpawnRequest { target_exists: false, dll_exists: false, ..request(&x64) };
    assert_eq!(spawn_and_inject(&gone).unwrap_err().message(), "I/O 错误: 目标文件不存在: \"t.exe\"");
    let no_dll = SpawnRequest { dll_exists: false, ..request(&x64) };
    assert_eq!(spawn_and_inject(&no_dll).unwrap_err().message(), "I/O 错误: 待注入的动态库不存在: \"h.dll\"");
    let unreadable = SpawnRequest { image: Err(IoErrorKind::Other), image_error: "denied", ..request(&x64) };
    assert_eq!(spawn_and_inject(&unreadable).unwrap_err().message(), "I/O 错误: denied");
    let narrow = SpawnRequest { wide_injector: false, ..request(&x64) };
    assert!(spawn_and_inject(&narrow).unwrap_err().message().contains("目标程序是 64 位 (X64)"));
    let arm = pe(0xaa64);
    let narrow = SpawnRequest { wide_injector: false, ..request(&arm) };
    assert!(spawn_and_inject(&narrow).unwrap_err().message().contains("(Arm64)"));
    let x86 = pe(0x014c);
    assert!(spawn_and_inject(&SpawnRequest { wide_injector: false, ..request(&x86) }).is_ok());
}

#[test]
fn arguments_and_command_lines() {
    assert_eq!(merge_args(Some(" a "), Some(" b ")).as_deref(), Some("a b"));
    assert_eq!(merge_args(Some(" a "), Some("  ")).as_deref(), Some(" a "));
    assert_eq!(merge_args(Some(" a "), None).as_deref(), Some(" a "));
    assert_eq!(merge_args(None, Some(" b ")).as_deref(), Some("b"));
    assert_eq!(merge_args(None, Some(" ")), None);
    assert_eq!(merge_args(None, None), None);
    assert_eq!(build_command_line("C:\\x y.exe", None), "\"C:\\x y.exe\"");
    assert_eq!(build_command_line("x", Some("\u{3000}")), "\"x\"");
    assert_eq!(build_command_line("x", Some("\u{3000}-q\t")), "\"x\" -q");
}

/// Runs the steps; the one at `fail` fails.
fn run(goal: Goal, fail: Option<Op>) -> (Vec<Op>, Injection) {
    let mut i = Injection::new(goal);
    let mut ops = Vec::new();
    while i.op != Op::Done {
        let op = i.op;
        ops.push(op);
        i.advance(Some(op) != fail);
    }
    (ops, i)
}

#[test]
fn the_steps_of_a_start() {
    let (ops, i) = run(Goal::Spawn, None);
    assert_eq!(
        ops,
        vec![
            Op::Create,
            Op::Allocate,
            Op::Write,
            Op::FindModule,
            Op::FindFunction,
            Op::StartThread,
            Op::Wait,
            Op::ReadExit,
            Op::Free,
            Op::Resume,
            Op::CloseThread,
            Op::CloseProcess,
        ]
    );
    assert!(i.resumed && i.loaded && !i.killed && i.failed.is_none());
}

#[test]
fn a_start_that_fails_leaves_no_process() {
    for op in [
        Op::Allocate, Op::Write, Op::FindModule, Op::FindFunction, Op::StartThread, Op::Wait, Op::ReadExit, Op::Resume,
    ] {
        let (ops, i) = run(Goal::Spawn, Some(op));
        assert!(i.killed && !i.resumed && i.failed == Some(op));
        assert!(!i.memory && !i.thread && !i.process);
        assert_eq!(ops.iter().filter(|o| **o == Op::Free).count(), if op == Op::Allocate { 0 } else { 1 });
        assert_eq!(ops.iter().filter(|o| **o == Op::Terminate).count(), 1);
    }
    let (ops, i) = run(Goal::Spawn, Some(Op::Create));
    assert_eq!(ops, vec![Op::Create]);
    assert!(!i.killed);
}

#[test]
fn other_processes_are_never_killed() {
    for goal in [Goal::Attach, Goal::Child] {
        for fail in [None, Some(Op::Open), Some(Op::CheckBits), Some(Op::Write), Some(Op::Wait), Some(Op::ReadExit)] {
            let (ops, i) = run(goal, fail);
            assert!(!ops.contains(&Op::Terminate) && !ops.contains(&Op::Resume));
            assert!(!i.memory && !i.thread);
        }
    }
    let (ops, i) = run(Goal::Child, Some(Op::ReadExit));
    assert_eq!(ops[ops.len() - 2..], [Op::CloseThread, Op::Free]);
    assert!(i.failed.is_none() && !i.loaded);
    assert_eq!(Injection::new(Goal::Spawn).wait_millis(), 10000);
    assert_eq!(Injection::new(Goal::Attach).wait_millis(), 5000);
    assert_eq!(Injection::new(Goal::Child).wait_millis(), 5000);
}

#[test]
fn errors_of_the_steps() {
    let text = |goal, op| step_error(goal, op, 5, 42).message();
    assert_eq!(text(Goal::Spawn, Op::Create), "Win32 API 调用失败 (错误码: 5): CreateProcessW");
    assert_eq!(text(Goal::Attach, Op::Open), "Win32 API 调用失败 (错误码: 5): OpenProcess");
    assert!(text(Goal::Attach, Op::CheckBits).contains("PID 42 为 32 位 (WOW64) 进程"));
    assert_eq!(text(Goal::Spawn, Op::Allocate), "Win32 API 调用失败 (错误码: 5): VirtualAllocEx");
    assert_eq!(text(Goal::Spawn, Op::Write), "Win32 API 调用失败 (错误码: 5): WriteProcessMemory");
    assert_eq!(text(Goal::Spawn, Op::FindModule), "Win32 API 调用失败 (错误码: 5): GetModuleHandleA");
    assert_eq!(text(Goal::Spawn, Op::FindFunction), "Win32 API 调用失败 (错误码: 5): GetProcAddress");
    assert_eq!(text(Goal::Spawn, Op::StartThread), "Win32 API 调用失败 (错误码: 5): CreateRemoteThread");
    assert_eq!(text(Goal::Spawn, Op::Wait), "远程线程等待超时或异常");
    assert!(text(Goal::Spawn, Op::ReadExit).ends_with("远程进程执行 LoadLibraryW 失败返回 NULL"));
    assert!(text(Goal::Attach, Op::ReadExit).ends_with("远程进程执行 LoadLibraryW 失败"));
    assert_eq!(text(Goal::Spawn, Op::Resume), "Win32 API 调用失败 (错误码: 5): ResumeThread");
    assert!(inject_existing_pid(true, "").is_ok());
    let gone = inject_existing_pid(false, "\"h.dll\"").unwrap_err();
    assert!(matches!(&gone, InjectorError::Io(e) if e.kind == IoErrorKind::NotFound));
}

#[test]
fn a_guard_kills_unless_it_is_disarmed() {
    let mut guard = ProcessGuard::new(7);
    assert_eq!(guard.release(), GuardRelease::TerminateAndClose);
    guard.disarm();
    assert_eq!(guard.release(), GuardRelease::Close);
    assert_eq!(ProcessGuard::new(0).release(), GuardRelease::Nothing);
}

#[test]
fn processes_that_can_be_injected_into() {
    assert!(can_inject(None, true));
    assert!(can_inject(Some(false), true));
    assert!(!can_inject(Some(true), true));
    assert!(can_inject(Some(true), false));
}

#[test]
fn errors_that_are_read() {
    let mut injection = Injection::new(Goal::Spawn);
    assert!(!injection.reads_error(true));
    injection.advance(true);
    assert_eq!(injection.op, Op::Allocate);
    assert!(injection.reads_error(false));
    injection.advance(true);
    assert!(injection.reads_error(false));
    injection.advance(false);
    assert_eq!((injection.op, injection.failed), (Op::Free, Some(Op::Write)));
    assert!(injection.reads_error(true));
    injection.advance(true);
    assert_eq!(injection.op, Op::Terminate);
    assert!(!injection.reads_error(true));

    let mut injection = Injection::new(Goal::Attach);
    while injection.op != Op::ReadExit {
        injection.advance(true);
    }
    injection.advance(false);
    while injection.op != Op::Done {
        assert!(injection.reads_error(true));
        injection.advance(true);
    }
}

#[test]
fn children_start_suspended() {
    assert_eq!(child_creation(0x10), (0x14, true));
    assert_eq!(child_creation(0x14), (0x14, false));
}

#[test]
fn the_system_tools_and_the_environment() {
    assert_eq!(enable_loopback_exemption(""), None);
    assert_eq!(
        enable_loopback_exemption("S-1-15-2-1").unwrap(),
        vec!["LoopbackExempt", "-a", "-p=S-1-15-2-1"]
    );
    assert_eq!(enable_loopback_exemption("Some.App").unwrap()[2], "-n=Some.App");
    assert_eq!(appcontainer_grant("C:\\h.dll"), vec!["C:\\h.dll", "/grant", "*S-1-15-2-1:(RX)"]);
    assert_eq!(cleared_variables()[9], "ftp_proxy");
}
