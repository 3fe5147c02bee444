//! Loading the hook library into a process: what is checked before, and in which order the steps are
//! taken and undone.

use vstd::prelude::*;
use crate::protocol::{IoError, IoErrorKind};
use crate::text;

verus! {

#[derive(Debug)]
pub enum InjectorError {
    Io(IoError),
    InvalidPe(String),
    /// A system call failed: its error and its name.
    Win32(u32, &'static str),
    RemoteThreadTimeout,
}

/// What an `InjectorError` says.
pub enum InjectorFault {
    Io(IoErrorKind, Seq<char>),
    InvalidPe(Seq<char>),
    Win32(u32, Seq<char>),
    RemoteThreadTimeout,
}

impl View for InjectorError {
    type V = InjectorFault;

    open spec fn view(&self) -> InjectorFault {
        match self {
            InjectorError::Io(e) => InjectorFault::Io(e.kind, e.message@),
            InjectorError::InvalidPe(m) => InjectorFault::InvalidPe(m@),
            InjectorError::Win32(code, name) => InjectorFault::Win32(*code, name@),
            InjectorError::RemoteThreadTimeout => InjectorFault::RemoteThreadTimeout,
        }
    }
}

impl InjectorFault {
    /// The message that a user reads.
    pub open spec fn text(self) -> Seq<char> {
        match self {
            InjectorFault::Io(_, m) => "I/O 错误: "@ + m,
            InjectorFault::InvalidPe(m) => "PE 文件解析失败: "@ + m,
            InjectorFault::Win32(code, name) => "Win32 API 调用失败 (错误码: "@ + text::dec(code as nat) + "): "@ + name,
            InjectorFault::RemoteThreadTimeout => "远程线程等待超时或异常"@,
        }
    }
}

impl InjectorError {
    /// The message that a user reads.
    pub fn message(&self) -> (r: String)
        ensures
            r@ == self@.text(),
    {
        match self {
            InjectorError::Io(e) => text::join("I/O 错误: ", &e.message),
            InjectorError::InvalidPe(m) => text::join("PE 文件解析失败: ", m),
            InjectorError::Win32(code, name) => {
                let mut r = text::copy_text("Win32 API 调用失败 (错误码: ");
                text::push_dec(&mut r, *code as u64);
                r.append("): ");
                r.append(name);
                r
            },
            InjectorError::RemoteThreadTimeout => text::copy_text("远程线程等待超时或异常"),
        }
    }
}

// Executables.

/// The processor that an executable is made for.
#[derive(Clone, Copy, PartialEq, Eq, Structural, Debug)]
pub enum Architecture {
    X86,
    X64,
    Arm64,
}

pub open spec fn le32(b: Seq<u8>, at: int) -> int {
    b[at] + b[at + 1] * 0x100 + b[at + 2] * 0x1_0000 + b[at + 3] * 0x100_0000
}

pub open spec fn le16(b: Seq<u8>, at: int) -> int {
    b[at] + b[at + 1] * 0x100
}

/// The processor that an executable is made for: the bytes start with `MZ`, the number at 60 is the
/// offset of `PE\0\0`, and the machine code stands behind that.
pub open spec fn architecture_of(b: Seq<u8>) -> Result<Architecture, InjectorFault> {
    if b.len() < 64 || b[0] != 0x4d || b[1] != 0x5a {
        Err(InjectorFault::InvalidPe("缺少有效的 MZ DOS 签名"@))
    } else {
        let pe = le32(b, 60);
        if pe + 6 > b.len() {
            Err(
                InjectorFault::InvalidPe(
                    "PE 偏移溢出 (文件大小: "@ + text::dec(b.len()) + ", PE 偏移: "@ + text::dec(pe as nat) + ")"@,
                ),
            )
        } else if !(b[pe] == 0x50 && b[pe + 1] == 0x45 && b[pe + 2] == 0 && b[pe + 3] == 0) {
            Err(InjectorFault::InvalidPe("缺少有效的 PE 签名 (PE\\0\\0)"@))
        } else {
            let machine = le16(b, pe + 4);
            if machine == 0x014c {
                Ok(Architecture::X86)
            } else if machine == 0x8664 {
                Ok(Architecture::X64)
            } else if machine == 0xaa64 {
                Ok(Architecture::Arm64)
            } else {
                Err(InjectorFault::InvalidPe("不支持的机器架构代码: 0x"@ + text::hex4(machine as nat)))
            }
        }
    }
}

/// The result, with the error as what it says.
pub open spec fn outcome<T>(r: Result<T, InjectorError>) -> Result<T, InjectorFault> {
    match r {
        Ok(t) => Ok(t),
        Err(e) => Err(e@),
    }
}

fn invalid_pe(message: &str) -> (r: InjectorError)
    ensures
        r@ == InjectorFault::InvalidPe(message@),
{
    InjectorError::InvalidPe(text::copy_text(message))
}

/// The processor that an executable is made for, from the bytes of its file.
pub fn detect_architecture_from_bytes(bytes: &[u8]) -> (r: Result<Architecture, InjectorError>)
    ensures
        outcome(r) == architecture_of(bytes@),
{
    if bytes.len() < 64 || bytes[0] != 0x4d || bytes[1] != 0x5a {
        return Err(invalid_pe("缺少有效的 MZ DOS 签名"));
    }
    let pe: u64 = bytes[60] as u64 + bytes[61] as u64 * 0x100 + bytes[62] as u64 * 0x1_0000 + bytes[63] as u64
        * 0x100_0000;
    let len: u64 = bytes.len() as u64;
    if pe + 6 > len {
        let mut m = text::copy_text("PE 偏移溢出 (文件大小: ");
        text::push_dec(&mut m, len);
        m.append(", PE 偏移: ");
        text::push_dec(&mut m, pe);
        m.append(")");
        return Err(InjectorError::InvalidPe(m));
    }
    let at: usize = pe as usize;
    if !(bytes[at] == 0x50 && bytes[at + 1] == 0x45 && bytes[at + 2] == 0 && bytes[at + 3] == 0) {
        return Err(invalid_pe("缺少有效的 PE 签名 (PE\\0\\0)"));
    }
    let machine: u16 = bytes[at + 4] as u16 + bytes[at + 5] as u16 * 0x100;
    if machine == 0x014c {
        Ok(Architecture::X86)
    } else if machine == 0x8664 {
        Ok(Architecture::X64)
    } else if machine == 0xaa64 {
        Ok(Architecture::Arm64)
    } else {
        let mut m = text::copy_text("不支持的机器架构代码: 0x");
        text::push_hex4(&mut m, machine);
        Err(InjectorError::InvalidPe(m))
    }
}

/// What is wrong with an executable for an injector of 64 or of 32 bits: each can inject only into
/// its like.
pub open spec fn mismatch(arch: Architecture, wide: bool) -> Option<Seq<char>> {
    match (arch, wide) {
        (Architecture::X86, true) => Some(
            "架构不匹配: 目标程序是 32 位 (X86)，当前 64 位注入器无法直接注入，请调度 32 位专用注入模块"@,
        ),
        (Architecture::X64, false) => Some(
            "架构不匹配: 目标程序是 64 位 (X64)，当前 32 位注入器无法直接注入，请调度 64 位专用注入模块"@,
        ),
        (Architecture::Arm64, false) => Some(
            "架构不匹配: 目标程序是 64 位 (Arm64)，当前 32 位注入器无法直接注入，请调度 64 位专用注入模块"@,
        ),
        _ => None,
    }
}

fn check_architecture(arch: Architecture, wide: bool) -> (r: Result<(), InjectorError>)
    ensures
        outcome(r) == match mismatch(arch, wide) {
            Some(m) => Err(InjectorFault::InvalidPe(m)),
            None => Ok(()),
        },
{
    match (arch, wide) {
        (Architecture::X86, true) => Err(
            invalid_pe("架构不匹配: 目标程序是 32 位 (X86)，当前 64 位注入器无法直接注入，请调度 32 位专用注入模块"),
        ),
        (Architecture::X64, false) => Err(
            invalid_pe("架构不匹配: 目标程序是 64 位 (X64)，当前 32 位注入器无法直接注入，请调度 64 位专用注入模块"),
        ),
        (Architecture::Arm64, false) => Err(
            invalid_pe("架构不匹配: 目标程序是 64 位 (Arm64)，当前 32 位注入器无法直接注入，请调度 64 位专用注入模块"),
        ),
        _ => Ok(()),
    }
}

/// What is wrong with a running process of 32 bits for an injector of 64.
pub open spec fn pid_mismatch(pid: u32) -> Seq<char> {
    "架构不匹配: PID "@ + text::dec(pid as nat)
        + " 为 32 位 (WOW64) 进程，当前 64 位注入器无法直接注入，请调度 32 位专用模块"@
}

/// A running process can be injected into.
pub open spec fn injectable(wow64: Option<bool>, wide_injector: bool) -> bool {
    !(wide_injector && wow64 == Some(true))
}

/// Whether an injector of 64 or of 32 bits can inject into a running process. `wow64` tells whether the
/// process is one of 32 bits on a system of 64, where the system says so; an injector of 32 bits tries
/// in any case.
pub fn can_inject(wow64: Option<bool>, wide_injector: bool) -> (r: bool)
    ensures
        r == injectable(wow64, wide_injector),
{
    match wow64 {
        Some(wow64) => !(wide_injector && wow64),
        None => true,
    }
}

// Starting a process.

/// The text is not just white space.
pub open spec fn has_words(s: Seq<char>) -> bool {
    text::trimmed(s).len() > 0
}

/// The arguments of a start through a shortcut: the shortcut's own, then the caller's.
pub open spec fn merged_args(link: Option<Seq<char>>, given: Option<Seq<char>>) -> Option<Seq<char>> {
    match (link, given) {
        (Some(l), Some(g)) => if has_words(g) {
            Some(text::trimmed(l) + seq![' '] + text::trimmed(g))
        } else {
            Some(l)
        },
        (Some(l), None) => Some(l),
        (None, Some(g)) => if has_words(g) {
            Some(text::trimmed(g))
        } else {
            None
        },
        (None, None) => None,
    }
}

/// The command line: the target in quotes, then the arguments.
pub open spec fn command_line(target: Seq<char>, args: Option<Seq<char>>) -> Seq<char> {
    let quoted = seq!['"'] + target + seq!['"'];
    match args {
        Some(a) => if has_words(a) {
            quoted + seq![' '] + text::trimmed(a)
        } else {
            quoted
        },
        None => quoted,
    }
}

pub open spec fn text_model(s: Option<&str>) -> Option<Seq<char>> {
    match s {
        Some(s) => Some(s@),
        None => None,
    }
}

pub open spec fn string_model(s: Option<String>) -> Option<Seq<char>> {
    match s {
        Some(s) => Some(s@),
        None => None,
    }
}

/// The arguments of a start through a shortcut: the shortcut's own, then the caller's.
pub fn merge_args(link: Option<&str>, given: Option<&str>) -> (r: Option<String>)
    ensures
        string_model(r) == merged_args(text_model(link), text_model(given)),
{
    match (link, given) {
        (Some(l), Some(g)) => {
            let g = text::trim(g);
            if text::chars_of(&g).len() > 0 {
                let mut r = text::trim(l);
                r.push(' ');
                r.append(&g);
                assert(r@ =~= text::trimmed(link->0@) + seq![' '] + text::trimmed(given->0@));
                Some(r)
            } else {
                Some(text::copy_text(l))
            }
        },
        (Some(l), None) => Some(text::copy_text(l)),
        (None, Some(g)) => {
            let g = text::trim(g);
            if text::chars_of(&g).len() > 0 {
                Some(g)
            } else {
                None
            }
        },
        (None, None) => None,
    }
}

/// The command line: the target in quotes, then the arguments.
pub fn build_command_line(target: &str, args: Option<&str>) -> (r: String)
    ensures
        r@ == command_line(target@, text_model(args)),
{
    let mut r = String::new();
    r.push('"');
    r.append(target);
    r.push('"');
    assert(r@ =~= seq!['"'] + target@ + seq!['"']);
    match args {
        Some(a) => {
            let a = text::trim(a);
            if text::chars_of(&a).len() > 0 {
                let ghost quoted = r@;
                r.push(' ');
                r.append(&a);
                assert(r@ =~= quoted + seq![' '] + text::trimmed(args->0@));
            }
        },
        None => {},
    }
    r
}

/// What is known of a start before it is made. Paths are given as they are shown to a user; in
/// messages they stand in quotes.
pub struct SpawnRequest<'a> {
    pub target_exists: bool,
    pub target_quoted: &'a str,
    pub dll_exists: bool,
    pub dll_quoted: &'a str,
    /// The executable: the target, or what the target links to.
    pub executable: &'a str,
    /// Whether the target is a shortcut, and the arguments that it holds.
    pub shortcut: Option<Option<&'a str>>,
    /// The bytes of the executable, or what went wrong when it was read.
    pub image: Result<&'a [u8], IoErrorKind>,
    pub image_error: &'a str,
    pub wide_injector: bool,
}

/// A start that can be made.
#[derive(Debug)]
pub struct SpawnPlan {
    pub architecture: Architecture,
    pub command_line: String,
}

pub struct SpawnModel {
    pub architecture: Architecture,
    pub command_line: Seq<char>,
}

impl<'a> SpawnRequest<'a> {
    /// The arguments that the executable gets.
    pub open spec fn args(self, given: Option<Seq<char>>) -> Option<Seq<char>> {
        match self.shortcut {
            Some(link) => merged_args(text_model(link), given),
            None => given,
        }
    }

    /// What becomes of the start. The target is looked for first, then the library, then the
    /// executable is read.
    pub open spec fn planned(self, given: Option<Seq<char>>) -> Result<SpawnModel, InjectorFault> {
        if !self.target_exists {
            Err(InjectorFault::Io(IoErrorKind::NotFound, "目标文件不存在: "@ + self.target_quoted@))
        } else if !self.dll_exists {
            Err(InjectorFault::Io(IoErrorKind::NotFound, "待注入的动态库不存在: "@ + self.dll_quoted@))
        } else {
            match self.image {
                Err(kind) => Err(InjectorFault::Io(kind, self.image_error@)),
                Ok(b) => match architecture_of(b@) {
                    Err(e) => Err(e),
                    Ok(architecture) => match mismatch(architecture, self.wide_injector) {
                        Some(m) => Err(InjectorFault::InvalidPe(m)),
                        None => Ok(
                            SpawnModel {
                                architecture,
                                command_line: command_line(self.executable@, self.args(given)),
                            },
                        ),
                    },
                },
            }
        }
    }
}

pub open spec fn spawn_outcome(r: Result<SpawnPlan, InjectorError>) -> Result<SpawnModel, InjectorFault> {
    match r {
        Ok(p) => Ok(SpawnModel { architecture: p.architecture, command_line: p.command_line@ }),
        Err(e) => Err(e@),
    }
}

fn not_found(message: &str, quoted: &str) -> (r: InjectorError)
    ensures
        r@ == InjectorFault::Io(IoErrorKind::NotFound, message@ + quoted@),
{
    InjectorError::Io(IoError { kind: IoErrorKind::NotFound, message: text::join(message, quoted) })
}

/// Checks a start with arguments: the command line, or why it cannot be made.
pub fn spawn_and_inject_with_args(request: &SpawnRequest, cmd_args: Option<&str>) -> (r: Result<SpawnPlan, InjectorError>)
    ensures
        spawn_outcome(r) == request.planned(text_model(cmd_args)),
{
    if !request.target_exists {
        return Err(not_found("目标文件不存在: ", request.target_quoted));
    }
    if !request.dll_exists {
        return Err(not_found("待注入的动态库不存在: ", request.dll_quoted));
    }
    let bytes = match request.image {
        Ok(b) => b,
        Err(kind) => {
            return Err(InjectorError::Io(IoError { kind, message: text::copy_text(request.image_error) }));
        },
    };
    let architecture = match detect_architecture_from_bytes(bytes) {
        Ok(a) => a,
        Err(e) => {
            return Err(e);
        },
    };
    match check_architecture(architecture, request.wide_injector) {
        Ok(()) => {},
        Err(e) => {
            return Err(e);
        },
    }
    let command_line = match request.shortcut {
        Some(link) => {
            let merged = merge_args(link, cmd_args);
            match merged {
                Some(a) => build_command_line(request.executable, Some(&a)),
                None => build_command_line(request.executable, None),
            }
        },
        None => build_command_line(request.executable, cmd_args),
    };
    Ok(SpawnPlan { architecture, command_line })
}

/// Checks a start without arguments.
pub fn spawn_and_inject(request: &SpawnRequest) -> (r: Result<SpawnPlan, InjectorError>)
    ensures
        spawn_outcome(r) == request.planned(None),
{
    spawn_and_inject_with_args(request, None)
}

// Loading the library.

/// What the library is loaded into.
#[derive(Clone, Copy, PartialEq, Eq, Structural, Debug)]
pub enum Goal {
    /// A process that is started for it, and waits until the library is there.
    Spawn,
    /// A running process.
    Attach,
    /// A process that a hooked process has started. Its start goes on whatever comes of this.
    Child,
}

/// A step of the work in the other process.
#[derive(Clone, Copy, PartialEq, Eq, Structural, Debug)]
pub enum Op {
    /// Start the process, suspended.
    Create,
    /// Open the running process.
    Open,
    /// Find out whether the process is one that the injector can inject into.
    CheckBits,
    /// Allocate memory for the library's path.
    Allocate,
    /// Write the path; succeeds where all of it was written.
    Write,
    /// Find the system library that loads libraries.
    FindModule,
    /// Find its function that loads libraries.
    FindFunction,
    /// Run that function in a thread of the process.
    StartThread,
    /// Wait for the thread.
    Wait,
    /// Read the thread's result; succeeds where it is not zero.
    ReadExit,
    /// Free the memory.
    Free,
    /// Let the process run.
    Resume,
    /// Close the thread's handle.
    CloseThread,
    /// Kill the process.
    Terminate,
    /// Close the handles of the process.
    CloseProcess,
    /// Nothing is left to be done.
    Done,
}

/// What is held in the other process, and what the work has come to.
#[derive(Clone, Copy, PartialEq, Eq, Structural, Debug)]
pub struct Injection {
    pub goal: Goal,
    /// The step that is to be taken.
    pub op: Op,
    /// The step that failed.
    pub failed: Option<Op>,
    pub process: bool,
    pub memory: bool,
    pub thread: bool,
    pub loaded: bool,
    pub resumed: bool,
    pub killed: bool,
}

impl Injection {
    /// The first step.
    pub open spec fn started(goal: Goal) -> Injection {
        Injection {
            goal,
            op: match goal {
                Goal::Spawn => Op::Create,
                Goal::Attach => Op::Open,
                Goal::Child => Op::Allocate,
            },
            failed: None,
            process: goal == Goal::Child,
            memory: false,
            thread: false,
            loaded: false,
            resumed: false,
            killed: false,
        }
    }

    /// The next step where nothing but cleaning up is left: the memory goes first and the thread's handle
    /// after it; in a child the handle goes first. A process that was started for the work and does not
    /// run is killed.
    pub open spec fn cleaning(self) -> Op {
        if self.thread && self.goal == Goal::Child {
            Op::CloseThread
        } else if self.memory {
            Op::Free
        } else if self.thread {
            Op::CloseThread
        } else if self.process && self.goal == Goal::Spawn && !self.resumed && !self.killed {
            Op::Terminate
        } else if self.process && self.goal != Goal::Child {
            Op::CloseProcess
        } else {
            Op::Done
        }
    }

    /// After the step was taken, with or without success.
    pub open spec fn after(self, ok: bool) -> Injection {
        let failed = Injection { failed: Some(self.op), ..self };
        let giving_up = Injection { op: failed.cleaning(), ..failed };
        match self.op {
            Op::Create | Op::Open => if ok {
                Injection {
                    process: true,
                    op: if self.goal == Goal::Spawn {
                        Op::Allocate
                    } else {
                        Op::CheckBits
                    },
                    ..self
                }
            } else {
                giving_up
            },
            Op::CheckBits => if ok {
                Injection { op: Op::Allocate, ..self }
            } else {
                giving_up
            },
            Op::Allocate => if ok {
                Injection { memory: true, op: Op::Write, ..self }
            } else {
                giving_up
            },
            Op::Write => if ok {
                Injection { op: Op::FindModule, ..self }
            } else {
                giving_up
            },
            Op::FindModule => if ok {
                Injection { op: Op::FindFunction, ..self }
            } else {
                giving_up
            },
            Op::FindFunction => if ok {
                Injection { op: Op::StartThread, ..self }
            } else {
                giving_up
            },
            Op::StartThread => if ok {
                Injection { thread: true, op: Op::Wait, ..self }
            } else {
                giving_up
            },
            Op::Wait => if ok || self.goal == Goal::Child {
                Injection { op: Op::ReadExit, ..self }
            } else {
                giving_up
            },
            Op::ReadExit => if ok || self.goal == Goal::Child {
                Injection { loaded: ok, op: self.cleaning(), ..self }
            } else {
                giving_up
            },
            Op::Free => {
                let freed = Injection { memory: false, ..self };
                Injection {
                    op: if self.failed is None && self.goal == Goal::Spawn {
                        Op::Resume
                    } else {
                        freed.cleaning()
                    },
                    ..freed
                }
            },
            Op::Resume => if ok {
                let running = Injection { resumed: true, ..self };
                Injection { op: running.cleaning(), ..running }
            } else {
                giving_up
            },
            Op::CloseThread => {
                let closed = Injection { thread: false, ..self };
                Injection { op: closed.cleaning(), ..closed }
            },
            Op::Terminate => {
                let dead = Injection { killed: true, ..self };
                Injection { op: dead.cleaning(), ..dead }
            },
            Op::CloseProcess => Injection { process: false, op: Op::Done, ..self },
            Op::Done => self,
        }
    }

    /// How long the thread is waited for, in milliseconds.
    pub open spec fn patience(self) -> u32 {
        if self.goal == Goal::Spawn {
            10000
        } else {
            5000
        }
    }

    pub fn new(goal: Goal) -> (r: Injection)
        ensures
            r == Injection::started(goal),
    {
        Injection {
            goal,
            op: match goal {
                Goal::Spawn => Op::Create,
                Goal::Attach => Op::Open,
                Goal::Child => Op::Allocate,
            },
            failed: None,
            process: goal == Goal::Child,
            memory: false,
            thread: false,
            loaded: false,
            resumed: false,
            killed: false,
        }
    }

    fn next_cleaning(&self) -> (r: Op)
        ensures
            r == self.cleaning(),
    {
        if self.thread && self.goal == Goal::Child {
            Op::CloseThread
        } else if self.memory {
            Op::Free
        } else if self.thread {
            Op::CloseThread
        } else if self.process && self.goal == Goal::Spawn && !self.resumed && !self.killed {
            Op::Terminate
        } else if self.process && self.goal != Goal::Child {
            Op::CloseProcess
        } else {
            Op::Done
        }
    }

    fn give_up(&mut self)
        ensures
            ({
                let failed = Injection { failed: Some(old(self).op), ..*old(self) };
                *final(self) == (Injection { op: failed.cleaning(), ..failed })
            }),
    {
        self.failed = Some(self.op);
        self.op = self.next_cleaning();
    }

    /// How long the thread is waited for, in milliseconds.
    pub fn wait_millis(&self) -> (r: u32)
        ensures
            r == self.patience(),
    {
        if self.goal == Goal::Spawn {
            10000
        } else {
            5000
        }
    }

    /// The system's error is to be read after the step: it is that of the step that fails. Where memory
    /// is freed on account of a failure, it is read again after that, and where a running process did not
    /// take the library, after all that follows.
    pub open spec fn error_is_due(self, ok: bool) -> bool {
        match self.failed {
            None => !ok,
            Some(op) => self.op == Op::Free || self.goal == Goal::Attach && op == Op::ReadExit,
        }
    }

    /// Whether the system's error is to be read after the step, which came out as `ok` says.
    pub fn reads_error(&self, ok: bool) -> (r: bool)
        ensures
            r == self.error_is_due(ok),
    {
        match self.failed {
            None => !ok,
            Some(op) => self.op == Op::Free || self.goal == Goal::Attach && op == Op::ReadExit,
        }
    }

    /// Says how the step came out; the next step is then in `op`.
    pub fn advance(&mut self, ok: bool)
        ensures
            *final(self) == old(self).after(ok),
    {
        match self.op {
            Op::Create | Op::Open => {
                if ok {
                    self.process = true;
                    self.op = if self.goal == Goal::Spawn {
                        Op::Allocate
                    } else {
                        Op::CheckBits
                    };
                } else {
                    self.give_up();
                }
            },
            Op::CheckBits => {
                if ok {
                    self.op = Op::Allocate;
                } else {
                    self.give_up();
                }
            },
            Op::Allocate => {
                if ok {
                    self.memory = true;
                    self.op = Op::Write;
                } else {
                    self.give_up();
                }
            },
            Op::Write => {
                if ok {
                    self.op = Op::FindModule;
                } else {
                    self.give_up();
                }
            },
            Op::FindModule => {
                if ok {
                    self.op = Op::FindFunction;
                } else {
                    self.give_up();
                }
            },
            Op::FindFunction => {
                if ok {
                    self.op = Op::StartThread;
                } else {
                    self.give_up();
                }
            },
            Op::StartThread => {
                if ok {
                    self.thread = true;
                    self.op = Op::Wait;
                } else {
                    self.give_up();
                }
            },
            Op::Wait => {
                if ok || self.goal == Goal::Child {
                    self.op = Op::ReadExit;
                } else {
                    self.give_up();
                }
            },
            Op::ReadExit => {
                if ok || self.goal == Goal::Child {
                    self.loaded = ok;
                    self.op = self.next_cleaning();
                } else {
                    self.give_up();
                }
            },
            Op::Free => {
                self.memory = false;
                self.op = if self.failed.is_none() && self.goal == Goal::Spawn {
                    Op::Resume
                } else {
                    self.next_cleaning()
                };
            },
            Op::Resume => {
                if ok {
                    self.resumed = true;
                    self.op = self.next_cleaning();
                } else {
                    self.give_up();
                }
            },
            Op::CloseThread => {
                self.thread = false;
                self.op = self.next_cleaning();
            },
            Op::Terminate => {
                self.killed = true;
                self.op = self.next_cleaning();
            },
            Op::CloseProcess => {
                self.process = false;
                self.op = Op::Done;
            },
            Op::Done => {},
        }
    }
}

/// The error that a failed step is reported with; `code` is the system's error.
pub open spec fn step_fault(goal: Goal, op: Op, code: u32, pid: u32) -> InjectorFault {
    match op {
        Op::Create => InjectorFault::Win32(code, "CreateProcessW"@),
        Op::Open => InjectorFault::Win32(code, "OpenProcess"@),
        Op::CheckBits => InjectorFault::InvalidPe(pid_mismatch(pid)),
        Op::Allocate => InjectorFault::Win32(code, "VirtualAllocEx"@),
        Op::Write => InjectorFault::Win32(code, "WriteProcessMemory"@),
        Op::FindModule => InjectorFault::Win32(code, "GetModuleHandleA"@),
        Op::FindFunction => InjectorFault::Win32(code, "GetProcAddress"@),
        Op::StartThread => InjectorFault::Win32(code, "CreateRemoteThread"@),
        Op::Wait => InjectorFault::RemoteThreadTimeout,
        Op::ReadExit => InjectorFault::Win32(
            code,
            if goal == Goal::Spawn {
                "远程进程执行 LoadLibraryW 失败返回 NULL"@
            } else {
                "远程进程执行 LoadLibraryW 失败"@
            },
        ),
        _ => InjectorFault::Win32(code, "ResumeThread"@),
    }
}

/// The error that a failed step is reported with; `code` is the system's error.
pub fn step_error(goal: Goal, op: Op, code: u32, pid: u32) -> (r: InjectorError)
    ensures
        r@ == step_fault(goal, op, code, pid),
{
    match op {
        Op::Create => InjectorError::Win32(code, "CreateProcessW"),
        Op::Open => InjectorError::Win32(code, "OpenProcess"),
        Op::CheckBits => {
            let mut m = text::copy_text("架构不匹配: PID ");
            text::push_dec(&mut m, pid as u64);
            m.append(" 为 32 位 (WOW64) 进程，当前 64 位注入器无法直接注入，请调度 32 位专用模块");
            InjectorError::InvalidPe(m)
        },
        Op::Allocate => InjectorError::Win32(code, "VirtualAllocEx"),
        Op::Write => InjectorError::Win32(code, "WriteProcessMemory"),
        Op::FindModule => InjectorError::Win32(code, "GetModuleHandleA"),
        Op::FindFunction => InjectorError::Win32(code, "GetProcAddress"),
        Op::StartThread => InjectorError::Win32(code, "CreateRemoteThread"),
        Op::Wait => InjectorError::RemoteThreadTimeout,
        Op::ReadExit => if goal == Goal::Spawn {
            InjectorError::Win32(code, "远程进程执行 LoadLibraryW 失败返回 NULL")
        } else {
            InjectorError::Win32(code, "远程进程执行 LoadLibraryW 失败")
        },
        _ => InjectorError::Win32(code, "ResumeThread"),
    }
}

/// What becomes of a load into a running process.
pub open spec fn attachment(dll_exists: bool, dll_quoted: Seq<char>) -> Result<Injection, InjectorFault> {
    if dll_exists {
        Ok(Injection::started(Goal::Attach))
    } else {
        Err(InjectorFault::Io(IoErrorKind::NotFound, "待注入的动态库不存在: "@ + dll_quoted))
    }
}

/// Checks a load into a running process: the library must exist.
pub fn inject_existing_pid(dll_exists: bool, dll_quoted: &str) -> (r: Result<Injection, InjectorError>)
    ensures
        outcome(r) == attachment(dll_exists, dll_quoted@),
{
    if dll_exists {
        Ok(Injection::new(Goal::Attach))
    } else {
        Err(not_found("待注入的动态库不存在: ", dll_quoted))
    }
}

impl Injection {
    /// The state is one that the work can come to.
    pub open spec fn wf(self) -> bool {
        let working = self.failed is None && !self.resumed && !self.killed;
        &&& self.goal == Goal::Child ==> self.process && !self.resumed && !self.killed
        &&& self.goal != Goal::Spawn ==> !self.resumed && !self.killed
        &&& self.resumed ==> self.loaded && self.failed is None && !self.killed
        &&& self.killed ==> self.failed is Some
        &&& match self.op {
            Op::Create => working && self == Injection::started(Goal::Spawn),
            Op::Open => working && self == Injection::started(Goal::Attach),
            Op::CheckBits => working && self.goal == Goal::Attach && self.process && !self.memory && !self.thread
                && !self.loaded,
            Op::Allocate => working && self.process && !self.memory && !self.thread && !self.loaded,
            Op::Write | Op::FindModule | Op::FindFunction | Op::StartThread => working && self.process && self.memory
                && !self.thread && !self.loaded,
            Op::Wait | Op::ReadExit => working && self.process && self.memory && self.thread && !self.loaded,
            Op::Free => !self.resumed && !self.killed && self.process && self.memory && (self.failed is None ==> (
            self.loaded || self.goal == Goal::Child)) && (self.goal == Goal::Child ==> !self.thread),
            Op::Resume => working && self.goal == Goal::Spawn && self.process && !self.memory && self.loaded,
            Op::CloseThread => (self.memory <==> self.goal == Goal::Child) && self.thread && self.process && !self.killed && (self.failed is None ==> (
            self.loaded || self.goal == Goal::Child)) && (self.goal == Goal::Spawn ==> (self.resumed <==> self.failed is None)),
            Op::Terminate => !self.memory && !self.thread && self.process && self.goal == Goal::Spawn && !self.resumed
                && !self.killed && self.failed is Some,
            Op::CloseProcess => !self.memory && !self.thread && self.process && self.goal != Goal::Child && (
            self.goal == Goal::Spawn ==> self.resumed != self.killed) && (self.failed is None ==> self.loaded) && (
            self.goal == Goal::Spawn ==> (self.resumed <==> self.failed is None)),
            Op::Done => !self.memory && !self.thread && (self.goal != Goal::Child ==> !self.process) && (self.failed is None
                ==> (self.loaded || self.goal == Goal::Child)) && (self.goal == Goal::Spawn ==> (self.resumed
                <==> self.failed is None) && (self.failed is Some && self.failed->0 != Op::Create ==> self.killed)),
        }
        &&& self.goal == Goal::Spawn && self.failed is Some && self.failed->0 == Op::Create ==> self.op == Op::Done
    }

    /// A measure of the steps that are left.
    pub open spec fn steps_left(self) -> nat {
        match self.op {
            Op::Create | Op::Open => 17,
            Op::CheckBits => 16,
            Op::Allocate => 15,
            Op::Write => 14,
            Op::FindModule => 13,
            Op::FindFunction => 12,
            Op::StartThread => 11,
            Op::Wait => 10,
            Op::ReadExit => 9,
            Op::Free => 7,
            Op::Resume => 6,
            Op::CloseThread => if self.goal == Goal::Child {
                8
            } else {
                5
            },
            Op::Terminate => 4,
            Op::CloseProcess => 3,
            Op::Done => 0,
        }
    }
}

// A process that hangs is worse than none.

/// Watches over a process that was started suspended: unless the guard is disarmed, the process is
/// killed when the guard goes.
#[derive(PartialEq, Eq, Structural, Debug)]
pub struct ProcessGuard {
    /// Zero where there is no process.
    pub handle: usize,
    disarmed: bool,
}

/// What is to be done when a guard goes.
#[derive(Clone, Copy, PartialEq, Eq, Structural, Debug)]
pub enum GuardRelease {
    Nothing,
    Close,
    TerminateAndClose,
}

impl ProcessGuard {
    /// The handle of the process, zero where there is none.
    pub closed spec fn process(self) -> usize {
        self.handle
    }

    /// The process is left alone.
    pub closed spec fn is_disarmed(self) -> bool {
        self.disarmed
    }

    pub fn new(handle: usize) -> (r: ProcessGuard)
        ensures
            r.process() == handle,
            !r.is_disarmed(),
    {
        ProcessGuard { handle, disarmed: false }
    }

    /// The process runs: it is left alone from now on.
    pub fn disarm(&mut self)
        ensures
            final(self).process() == old(self).process(),
            final(self).is_disarmed(),
    {
        self.disarmed = true;
    }

    /// What is to be done when the guard goes.
    pub fn release(&self) -> (r: GuardRelease)
        ensures
            r == released(self.process(), self.is_disarmed()),
    {
        if self.handle == 0 {
            GuardRelease::Nothing
        } else if self.disarmed {
            GuardRelease::Close
        } else {
            GuardRelease::TerminateAndClose
        }
    }
}

/// What is to be done with a process, by its handle, when its guard goes.
pub open spec fn released(handle: usize, disarmed: bool) -> GuardRelease {
    if handle == 0 {
        GuardRelease::Nothing
    } else if disarmed {
        GuardRelease::Close
    } else {
        GuardRelease::TerminateAndClose
    }
}

/// The flag of a process that starts suspended.
pub const CREATE_SUSPENDED: u32 = 4;

/// The flags with which a hooked process starts another, and whether it is to be let run after that.
pub open spec fn creation(flags: u32) -> (u32, bool) {
    (flags | CREATE_SUSPENDED, flags & CREATE_SUSPENDED == 0)
}

/// How a hooked process starts another: the flags, with which it is always suspended, and whether it
/// is to be let run once the library is in it, which it is unless the caller wanted it suspended.
pub fn child_creation(flags: u32) -> (r: (u32, bool))
    ensures
        r == creation(flags),
        r.0 & CREATE_SUSPENDED != 0,
{
    proof {
        assert((flags | 4u32) & 4u32 != 0) by (bit_vector);
    }
    (flags | CREATE_SUSPENDED, flags & CREATE_SUSPENDED == 0)
}

// The system's tools.

pub open spec fn views(v: Seq<String>) -> Seq<Seq<char>> {
    Seq::new(v.len(), |i: int| v[i]@)
}

/// The arguments with which `icacls` lets application packages read and run a file.
pub fn appcontainer_grant(path: &str) -> (r: Vec<String>)
    ensures
        views(r@) == seq![path@, "/grant"@, "*S-1-15-2-1:(RX)"@],
{
    let mut r: Vec<String> = Vec::new();
    r.push(text::copy_text(path));
    r.push(text::copy_text("/grant"));
    r.push(text::copy_text("*S-1-15-2-1:(RX)"));
    assert(views(r@) =~= seq![path@, "/grant"@, "*S-1-15-2-1:(RX)"@]);
    r
}

/// `-p` for a security identifier, `-n` for the name of a package family.
pub open spec fn exemption(package: Seq<char>) -> Seq<char> {
    if text::starts_with(package, "S-1-15-"@) {
        "-p="@ + package
    } else {
        "-n="@ + package
    }
}

/// The arguments of the system's tool that exempts a package; none where no package is named.
pub open spec fn exemption_args(package: Seq<char>) -> Option<Seq<Seq<char>>> {
    if package.len() == 0 {
        None
    } else {
        Some(seq!["LoopbackExempt"@, "-a"@, exemption(package)])
    }
}

/// The arguments with which `CheckNetIsolation.exe` lets a package reach the relay on the loopback
/// address; `None` where no package is named.
pub fn enable_loopback_exemption(package: &str) -> (r: Option<Vec<String>>)
    ensures
        match r {
            None => exemption_args(package@) is None,
            Some(args) => exemption_args(package@) == Some(views(args@)),
        },
{
    if text::chars_of(package).len() == 0 {
        return None;
    }
    let mut r: Vec<String> = Vec::new();
    r.push(text::copy_text("LoopbackExempt"));
    r.push(text::copy_text("-a"));
    if text::has_prefix(package, "S-1-15-") {
        r.push(text::join("-p=", package));
    } else {
        r.push(text::join("-n=", package));
    }
    assert(views(r@) =~= seq!["LoopbackExempt"@, "-a"@, exemption(package@)]);
    Some(r)
}

pub open spec fn cleared() -> Seq<Seq<char>> {
    seq![
        "HTTP_PROXY"@,
        "HTTPS_PROXY"@,
        "ALL_PROXY"@,
        "NO_PROXY"@,
        "FTP_PROXY"@,
        "http_proxy"@,
        "https_proxy"@,
        "all_proxy"@,
        "no_proxy"@,
        "ftp_proxy"@,
    ]
}

/// The environment variables that a process is started without.
pub fn cleared_variables() -> (r: [&'static str; 10])
    ensures
        Seq::new(10, |i: int| r@[i]@) == cleared(),
{
    let r = [
        "HTTP_PROXY",
        "HTTPS_PROXY",
        "ALL_PROXY",
        "NO_PROXY",
        "FTP_PROXY",
        "http_proxy",
        "https_proxy",
        "all_proxy",
        "no_proxy",
        "ftp_proxy",
    ];
    assert(Seq::new(10, |i: int| r@[i]@) =~= cleared());
    r
}

// Laws.

/// The work starts in order, stays in order whatever the steps come to, and comes to an end.
pub proof fn injection_stays_in_order(goal: Goal, i: Injection, ok: bool)
    requires
        i.wf(),
    ensures
        Injection::started(goal).wf(),
        i.after(ok).wf(),
        i.op != Op::Done ==> i.after(ok).steps_left() < i.steps_left(),
{
}

/// When the work is over nothing is left behind: the memory is freed and the handles are closed. A
/// process that was started for it runs with the library in it, or was killed; a running one is left
/// alone.
pub proof fn nothing_is_left_behind(i: Injection)
    requires
        i.wf(),
        i.op == Op::Done,
    ensures
        !i.memory,
        !i.thread,
        i.goal != Goal::Child ==> !i.process,
        i.failed is None && i.goal != Goal::Child ==> i.loaded,
        i.goal == Goal::Spawn ==> (i.resumed <==> i.failed is None),
        i.goal == Goal::Spawn && i.failed is Some && i.failed->0 != Op::Create ==> i.killed,
        i.goal != Goal::Spawn ==> !i.killed,
{
}

/// A process that was started for the work is let run only with the library in it.
pub proof fn process_runs_only_with_the_library(i: Injection)
    requires
        i.wf(),
        i.op == Op::Resume,
    ensures
        i.loaded,
        !i.memory,
{
}

/// Memory is freed only while it is held, and a process is killed only where it was started for the
/// work and does not run.
pub proof fn cleaning_is_done_once(i: Injection)
    requires
        i.wf(),
    ensures
        i.op == Op::Free ==> i.memory,
        i.op == Op::CloseThread ==> i.thread,
        i.op == Op::Terminate ==> i.goal == Goal::Spawn && !i.resumed && !i.killed,
        i.op == Op::CloseProcess ==> i.process,
{
}

/// An executable is one with `MZ` at its start and, at the place that the bytes from 60 on say with the least
/// significant first, `PE` and two zeros; the two bytes behind them tell the processor.
pub proof fn executables_by_their_bytes(b: Seq<u8>)
    ensures
        ({
            let pe = b[60] + 256 * (b[61] + 256 * (b[62] + 256 * b[63]));
            let sound = b.len() >= 64 && b[0] == 0x4d && b[1] == 0x5a && pe + 6 <= b.len() && b[pe] == 0x50 && b[pe + 1]
                == 0x45 && b[pe + 2] == 0 && b[pe + 3] == 0;
            let is = |low: u8, high: u8| sound && b[pe + 4] == low && b[pe + 5] == high;
            &&& architecture_of(b) == Ok::<Architecture, InjectorFault>(Architecture::X86) <==> is(0x4c, 0x01)
            &&& architecture_of(b) == Ok::<Architecture, InjectorFault>(Architecture::X64) <==> is(0x64, 0x86)
            &&& architecture_of(b) == Ok::<Architecture, InjectorFault>(Architecture::Arm64) <==> is(0x64, 0xaa)
            &&& architecture_of(b) is Err ==> architecture_of(b)->Err_0 is InvalidPe
        }),
{
}

/// An injector of 64 bits takes executables of 64 bits, and one of 32 bits those of 32.
pub proof fn injectors_take_their_like(arch: Architecture, wide: bool)
    ensures
        mismatch(arch, wide) is None <==> (if wide {
            arch != Architecture::X86
        } else {
            arch == Architecture::X86
        }),
{
}

/// A start can be made where the target and the library are there and the executable is one that the injector
/// takes, and only there; what is missing is reported in that order.
pub proof fn starts_that_can_be_made(request: SpawnRequest, given: Option<Seq<char>>)
    ensures
        request.planned(given) is Ok <==> request.target_exists && request.dll_exists && request.image is Ok
            && architecture_of(request.image->Ok_0@) is Ok && (request.wide_injector <==> architecture_of(
            request.image->Ok_0@,
        )->Ok_0 != Architecture::X86),
        request.planned(given) is Ok ==> request.planned(given)->Ok_0.architecture == architecture_of(
            request.image->Ok_0@,
        )->Ok_0,
        !request.target_exists ==> match request.planned(given) {
            Err(InjectorFault::Io(kind, m)) => kind == IoErrorKind::NotFound && text::ends_with(m, request.target_quoted@),
            _ => false,
        },
        request.target_exists && !request.dll_exists ==> match request.planned(given) {
            Err(InjectorFault::Io(kind, m)) => kind == IoErrorKind::NotFound && text::ends_with(m, request.dll_quoted@),
            _ => false,
        },
        request.target_exists && request.dll_exists && request.image is Err ==> request.planned(given) == Err::<
            SpawnModel,
            InjectorFault,
        >(InjectorFault::Io(request.image->Err_0, request.image_error@)),
{
    text::ends_of_a_text(request.target_quoted@, request.target_quoted@, "目标文件不存在: "@);
    text::ends_of_a_text(request.dll_quoted@, request.dll_quoted@, "待注入的动态库不存在: "@);
}

/// A start that can be made has the executable in quotes in its command line, and behind a space the arguments
/// without white space around them: those given, behind those of the shortcut where there is one.
pub proof fn command_lines_hold_the_arguments(request: SpawnRequest, given: Option<Seq<char>>)
    requires
        request.planned(given) is Ok,
    ensures
        ({
            let line = request.planned(given)->Ok_0.command_line;
            let quoted = seq!['"'] + request.executable@ + seq!['"'];
            let own = match request.shortcut {
                Some(Some(args)) => text::trimmed(args@),
                _ => Seq::empty(),
            };
            let more = match given {
                Some(args) => text::trimmed(args),
                None => Seq::empty(),
            };
            &&& own.len() == 0 && more.len() == 0 && !(request.shortcut matches Some(Some(_))) ==> line == quoted
            &&& own.len() == 0 && more.len() > 0 && !(request.shortcut matches Some(Some(_))) ==> line == quoted + seq![
                ' ',
            ] + more
            &&& own.len() > 0 && more.len() == 0 ==> line == quoted + seq![' '] + own
            &&& own.len() > 0 && more.len() > 0 ==> line == quoted + seq![' '] + (own + seq![' '] + more)
        }),
{
    if given is Some {
        text::trimming_again(given->0);
        match request.shortcut {
            Some(Some(args)) => {
                let own = text::trimmed(args@);
                let more = text::trimmed(given->0);
                let a = text::trimming_takes_the_ends(args@);
                let b = text::trimming_takes_the_ends(given->0);
                let both = own + seq![' '] + more;
                if own.len() > 0 && more.len() > 0 {
                    assert(both[0] == own[0] && both.last() == more.last());
                    text::nothing_to_trim(both);
                }
            },
            _ => {},
        }
    }
}

/// The steps of a start, of a running process and of a child, where all of them succeed.
pub proof fn steps_in_their_order(goal: Goal)
    ensures
        ({
            let i0 = Injection::started(goal);
            let i1 = i0.after(true);
            let i2 = i1.after(true);
            let i3 = i2.after(true);
            let i4 = i3.after(true);
            let i5 = i4.after(true);
            let i6 = i5.after(true);
            let i7 = i6.after(true);
            let i8 = i7.after(true);
            let i9 = i8.after(true);
            let i10 = i9.after(true);
            let i11 = i10.after(true);
            let i12 = i11.after(true);
            let ops = seq![
                i0.op, i1.op, i2.op, i3.op, i4.op, i5.op, i6.op, i7.op, i8.op, i9.op, i10.op, i11.op, i12.op,
            ];
            ops == (match goal {
                Goal::Spawn => seq![
                    Op::Create,
                    Op::Allocate,
                    Op::Write,
                    Op::FindModule,
                    Op::FindFunction,
                    Op::StartThread,
                    Op::Wait,
                    Op::ReadExit,
                    Op::Free,
                    Op::Resume,
                    Op::CloseThread,
                    Op::CloseProcess,
                    Op::Done,
                ],
                Goal::Attach => seq![
                    Op::Open,
                    Op::CheckBits,
                    Op::Allocate,
                    Op::Write,
                    Op::FindModule,
                    Op::FindFunction,
                    Op::StartThread,
                    Op::Wait,
                    Op::ReadExit,
                    Op::Free,
                    Op::CloseThread,
                    Op::CloseProcess,
                    Op::Done,
                ],
                Goal::Child => seq![
                    Op::Allocate,
                    Op::Write,
                    Op::FindModule,
                    Op::FindFunction,
                    Op::StartThread,
                    Op::Wait,
                    Op::ReadExit,
                    Op::CloseThread,
                    Op::Free,
                    Op::Done,
                    Op::Done,
                    Op::Done,
                    Op::Done,
                ],
            })
        }),
{
}

/// Of a step that fails it is kept that it failed, and nothing but cleaning up follows; what was held stays
/// held until it is cleaned up.
pub proof fn failures_are_kept(i: Injection, ok: bool)
    requires
        i.wf(),
    ensures
        i.failed is Some ==> i.after(ok).failed == i.failed,
        i.failed is None && i.after(ok).failed is Some ==> !ok && i.after(ok).failed == Some(i.op),
        i.failed is None && !ok && (i.op == Op::Create || i.op == Op::Open || i.op == Op::CheckBits || i.op
            == Op::Allocate || i.op == Op::Write || i.op == Op::FindModule || i.op == Op::FindFunction || i.op
            == Op::StartThread || i.op == Op::Resume) ==> i.after(ok).failed == Some(i.op),
        i.failed is None && !ok && (i.op == Op::Wait || i.op == Op::ReadExit) ==> (i.after(ok).failed == Some(i.op)
            <==> i.goal != Goal::Child),
        i.after(ok).failed is Some ==> (i.after(ok).op == Op::Free || i.after(ok).op == Op::CloseThread || i.after(ok).op
            == Op::Terminate || i.after(ok).op == Op::CloseProcess || i.after(ok).op == Op::Done),
        i.memory && !i.after(ok).memory ==> i.op == Op::Free,
        i.thread && !i.after(ok).thread ==> i.op == Op::CloseThread,
        i.process && !i.after(ok).process ==> i.op == Op::CloseProcess,
        !i.killed && i.after(ok).killed ==> i.op == Op::Terminate,
        !i.resumed && i.after(ok).resumed ==> i.op == Op::Resume && ok,
        !i.loaded && i.after(ok).loaded ==> i.op == Op::ReadExit && ok,
{
}

/// A thread is waited for ten seconds in a process that was started for the work, and five in another.
pub proof fn threads_are_waited_for(i: Injection)
    ensures
        i.patience() == (if i.goal == Goal::Spawn {
            10_000u32
        } else {
            5_000u32
        }),
{
}

/// A step that fails is reported as the system call that it makes, with the system's error; a thread that does
/// not end is a timeout, and a process of the wrong kind is named by its number.
pub proof fn steps_are_reported(goal: Goal, op: Op, code: u32, pid: u32)
    ensures
        step_fault(goal, Op::Create, code, pid) == InjectorFault::Win32(code, "CreateProcessW"@),
        step_fault(goal, Op::Open, code, pid) == InjectorFault::Win32(code, "OpenProcess"@),
        step_fault(goal, Op::Allocate, code, pid) == InjectorFault::Win32(code, "VirtualAllocEx"@),
        step_fault(goal, Op::Write, code, pid) == InjectorFault::Win32(code, "WriteProcessMemory"@),
        step_fault(goal, Op::FindModule, code, pid) == InjectorFault::Win32(code, "GetModuleHandleA"@),
        step_fault(goal, Op::FindFunction, code, pid) == InjectorFault::Win32(code, "GetProcAddress"@),
        step_fault(goal, Op::StartThread, code, pid) == InjectorFault::Win32(code, "CreateRemoteThread"@),
        step_fault(goal, Op::Resume, code, pid) == InjectorFault::Win32(code, "ResumeThread"@),
        step_fault(goal, Op::Wait, code, pid) == InjectorFault::RemoteThreadTimeout,
        step_fault(goal, Op::ReadExit, code, pid) is Win32,
        step_fault(goal, Op::CheckBits, code, pid) matches InjectorFault::InvalidPe(m) && text::contains(
            m,
            text::dec(pid as nat),
        ),
        step_fault(goal, op, code, pid) matches InjectorFault::Win32(c, _) ==> c == code,
{
    let k = text::middles_of_a_text(
        Seq::empty(),
        text::dec(pid as nat),
        "架构不匹配: PID "@,
        " 为 32 位 (WOW64) 进程，当前 64 位注入器无法直接注入，请调度 32 位专用模块"@,
    );
}

/// A package is exempted as what it is named by: `-p` and its security identifier, or `-n` and its name.
pub proof fn packages_are_exempted_by_their_kind(rest: Seq<char>, name: Seq<char>)
    ensures
        exemption(seq!['S', '-', '1', '-', '1', '5', '-'] + rest) == seq!['-', 'p', '='] + seq![
            'S', '-', '1', '-', '1', '5', '-',
        ] + rest,
        !text::starts_with(name, seq!['S', '-', '1', '-', '1', '5', '-']) ==> exemption(name) == seq!['-', 'n', '=']
            + name,
{
    reveal_strlit("S-1-15-");
    reveal_strlit("-p=");
    reveal_strlit("-n=");
    let sid = seq!['S', '-', '1', '-', '1', '5', '-'];
    assert("S-1-15-"@ =~= sid);
    assert("-p="@ =~= seq!['-', 'p', '=']);
    assert("-n="@ =~= seq!['-', 'n', '=']);
    text::starts_of_a_text(sid, sid, rest);
    assert(seq!['-', 'p', '='] + (sid + rest) =~= seq!['-', 'p', '='] + sid + rest);
}

/// While nothing has failed the system's error is read where a step does not succeed, and nowhere else. After a
/// failure it is read again when the memory is freed; where a running process did not take the library, after
/// every step.
pub proof fn errors_are_read_after_failures(i: Injection, ok: bool)
    ensures
        i.failed is None ==> (i.error_is_due(ok) <==> !ok),
        i.failed is Some && i.op == Op::Free ==> i.error_is_due(ok),
        i.failed is Some && i.op != Op::Free ==> (i.error_is_due(ok) <==> i.goal == Goal::Attach && i.failed
            == Some(Op::ReadExit)),
{
}

/// A shortcut whose arguments are blank adds nothing to the command line.
pub proof fn blank_arguments_of_a_shortcut(request: SpawnRequest, given: Option<Seq<char>>)
    requires
        request.planned(given) is Ok,
        match request.shortcut {
            Some(Some(args)) => text::trimmed(args@).len() == 0,
            _ => false,
        },
    ensures
        ({
            let line = request.planned(given)->Ok_0.command_line;
            let quoted = seq!['"'] + request.executable@ + seq!['"'];
            let more = match given {
                Some(args) => text::trimmed(args),
                None => Seq::empty(),
            };
            &&& more.len() == 0 ==> line == quoted
            &&& more.len() > 0 ==> line == quoted + seq![' '] + more
        }),
{
    let own = match request.shortcut {
        Some(Some(args)) => args@,
        _ => Seq::empty(),
    };
    if given is Some && has_words(given->0) {
        let g = text::trimmed(given->0);
        let ends = text::trimming_takes_the_ends(given->0);
        text::nothing_to_trim(g);
        let s = text::trimmed(own) + seq![' '] + g;
        assert(s =~= seq![' '] + g);
        text::trimming_sets_blanks_aside(g);
    }
}

/// A child is started with the third flag set and the others as the caller has them, and is let run where the
/// caller has not set it.
pub proof fn children_start_suspended(flags: u32)
    ensures
        creation(flags).0 / 4 % 2 == 1,
        creation(flags).0 % 4 == flags % 4,
        creation(flags).0 / 8 == flags / 8,
        creation(flags).1 <==> flags / 4 % 2 == 0,
{
    assert((flags | 4u32) / 4 % 2 == 1 && (flags | 4u32) % 4 == flags % 4 && (flags | 4u32) / 8 == flags / 8 && (flags
        & 4u32 == 0 <==> flags / 4 % 2 == 0)) by (bit_vector);
}

/// A process of 32 bits can be injected into where an executable of 32 bits can be started, and any other
/// process always.
pub proof fn running_processes_are_taken_as_started_ones(wide: bool)
    ensures
        injectable(Some(true), wide) <==> mismatch(Architecture::X86, wide) is None,
        injectable(Some(false), wide),
        injectable(None, wide),
{
}

/// A guard closes every handle that it has, and ends the process unless that was left alone.
pub proof fn guards_end_what_was_not_left_alone(handle: usize, disarmed: bool)
    ensures
        released(handle, disarmed) is Nothing <==> handle == 0,
        released(handle, disarmed) is TerminateAndClose <==> handle != 0 && !disarmed,
        released(handle, disarmed) is Close <==> handle != 0 && disarmed,
{
}

/// A load into a running process starts with its opening, where the library exists, and is refused with its
/// name where it does not.
pub proof fn running_processes_are_opened_first(dll_exists: bool, quoted: Seq<char>)
    ensures
        attachment(dll_exists, quoted) is Ok <==> dll_exists,
        match attachment(dll_exists, quoted) {
            Ok(i) => i.goal == Goal::Attach && i.op == Op::Open && i.failed is None && !i.memory && !i.thread && !i.process,
            Err(InjectorFault::Io(kind, m)) => kind == IoErrorKind::NotFound && text::ends_with(m, quoted),
            _ => false,
        },
{
    text::ends_of_a_text(quoted, quoted, "待注入的动态库不存在: "@);
}

/// A package is exempted where one is named, by the name that its kind asks for.
pub proof fn named_packages_are_exempted(package: Seq<char>)
    ensures
        exemption_args(package) is None <==> package.len() == 0,
        exemption_args(package) is Some ==> {
            let args = exemption_args(package)->0;
            args.len() == 3 && args[0] == "LoopbackExempt"@ && args[1] == seq!['-', 'a'] && args[2] == exemption(package)
                && text::ends_with(args[2], package)
        },
{
    reveal_strlit("-a");
    assert("-a"@ =~= seq!['-', 'a']);
    text::ends_of_a_text(package, package, "-p="@);
    text::ends_of_a_text(package, package, "-n="@);
}

/// The variables that a process is started without are five, each in capitals and in small letters.
pub proof fn variables_are_cleared_in_either_case(i: int)
    requires
        0 <= i < 5,
    ensures
        cleared().len() == 10,
        cleared()[i] == seq!["HTTP"@, "HTTPS"@, "ALL"@, "NO"@, "FTP"@][i] + seq!['_', 'P', 'R', 'O', 'X', 'Y'],
        text::lower(cleared()[i]) == cleared()[i + 5],
{
    reveal_strlit("HTTP");
    reveal_strlit("HTTPS");
    reveal_strlit("ALL");
    reveal_strlit("NO");
    reveal_strlit("FTP");
    reveal_strlit("HTTP_PROXY");
    reveal_strlit("HTTPS_PROXY");
    reveal_strlit("ALL_PROXY");
    reveal_strlit("NO_PROXY");
    reveal_strlit("FTP_PROXY");
    reveal_strlit("http_proxy");
    reveal_strlit("https_proxy");
    reveal_strlit("all_proxy");
    reveal_strlit("no_proxy");
    reveal_strlit("ftp_proxy");
    assert(text::lower(cleared()[i]) =~= cleared()[i + 5]);
    assert(cleared()[i] =~= seq!["HTTP"@, "HTTPS"@, "ALL"@, "NO"@, "FTP"@][i] + seq!['_', 'P', 'R', 'O', 'X', 'Y']);
}

/// The message of an error ends in what was reported, and that of a call of the system shows its code.
pub proof fn messages_end_in_what_they_report(kind: IoErrorKind, m: Seq<char>, code: u32)
    ensures
        text::ends_with(InjectorFault::Io(kind, m).text(), m),
        text::ends_with(InjectorFault::InvalidPe(m).text(), m),
        text::ends_with(InjectorFault::Win32(code, m).text(), m),
        text::contains(InjectorFault::Win32(code, m).text(), text::dec(code as nat)),
{
    let d = text::dec(code as nat);
    let front = "Win32 API 调用失败 (错误码: "@;
    text::ends_of_a_text(m, m, "I/O 错误: "@);
    text::ends_of_a_text(m, m, "PE 文件解析失败: "@);
    text::ends_of_a_text(m, m, front + d + "): "@);
    let i = text::middles_of_a_text(m, d, front, "): "@ + m);
    assert(InjectorFault::Win32(code, m).text() =~= front + d + ("): "@ + m));
}

} // verus!
