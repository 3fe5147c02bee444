//! The control console: its state, and what its commands do.

use vstd::prelude::*;
use crate::bytes;
use crate::injector;
use crate::injector::Architecture;
use crate::launch;
use crate::net::SocketAddr;
use crate::processes::{EntryModel, ProcessEntry};
use crate::router;
use crate::router::{PatternModel, RouteAction, Router, RuleItem, RuleModel, RulePattern};
use crate::session::{SessionRecord, SessionTracker, TrackerModel};
use crate::text;

verus! {

/// This many presets are kept.
pub const MAX_PRESETS: usize = 32;

/// This many sessions are shown.
pub const SHOWN_SESSIONS: usize = 60;

/// A program that is launched often.
#[derive(PartialEq, Eq, Debug)]
pub struct PresetItem {
    pub name: String,
    pub target: String,
    pub args: String,
}

pub struct PresetModel {
    pub name: Seq<char>,
    pub target: Seq<char>,
    pub args: Seq<char>,
}

impl View for PresetItem {
    type V = PresetModel;

    open spec fn view(&self) -> PresetModel {
        PresetModel { name: self.name@, target: self.target@, args: self.args@ }
    }
}

impl Clone for PresetItem {
    fn clone(&self) -> (r: PresetItem)
        ensures
            r@ == self@,
    {
        PresetItem {
            name: text::copy_text(&self.name),
            target: text::copy_text(&self.target),
            args: text::copy_text(&self.args),
        }
    }
}

/// A process under control.
#[derive(Debug)]
pub struct TrackedProcess {
    pub pid: u32,
    pub name: String,
    pub path: String,
    pub arch: String,
    /// Zero where there is none.
    pub handle: usize,
    pub running: bool,
    pub exit_code: u32,
}

pub struct ProcessModel {
    pub pid: u32,
    pub name: Seq<char>,
    pub path: Seq<char>,
    pub arch: Seq<char>,
    pub handle: usize,
    pub running: bool,
    pub exit_code: u32,
}

impl View for TrackedProcess {
    type V = ProcessModel;

    open spec fn view(&self) -> ProcessModel {
        ProcessModel {
            pid: self.pid,
            name: self.name@,
            path: self.path@,
            arch: self.arch@,
            handle: self.handle,
            running: self.running,
            exit_code: self.exit_code,
        }
    }
}

/// The state of the console.
#[derive(Debug)]
pub struct Console {
    /// Where the relay listens, while it runs.
    pub relay: Option<SocketAddr>,
    pub upstream_proxy: String,
    pub strict_dns: bool,
    pub processes: Vec<TrackedProcess>,
    pub presets: Vec<PresetItem>,
    pub last_log: Option<String>,
    pub ping_ms: Option<u64>,
}

pub struct ConsoleModel {
    pub relay: Option<SocketAddr>,
    pub upstream_proxy: Seq<char>,
    pub strict_dns: bool,
    pub processes: Seq<ProcessModel>,
    pub presets: Seq<PresetModel>,
    pub last_log: Option<Seq<char>>,
    pub ping_ms: Option<u64>,
}

pub open spec fn preset_models(v: Seq<PresetItem>) -> Seq<PresetModel> {
    Seq::new(v.len(), |i: int| v[i]@)
}

pub open spec fn process_models(v: Seq<TrackedProcess>) -> Seq<ProcessModel> {
    Seq::new(v.len(), |i: int| v[i]@)
}

pub open spec fn string_model(s: Option<String>) -> Option<Seq<char>> {
    match s {
        Some(s) => Some(s@),
        None => None,
    }
}

pub open spec fn str_model(s: Option<&str>) -> Option<Seq<char>> {
    match s {
        Some(s) => Some(s@),
        None => None,
    }
}

impl View for Console {
    type V = ConsoleModel;

    open spec fn view(&self) -> ConsoleModel {
        ConsoleModel {
            relay: self.relay,
            upstream_proxy: self.upstream_proxy@,
            strict_dns: self.strict_dns,
            processes: process_models(self.processes@),
            presets: preset_models(self.presets@),
            last_log: string_model(self.last_log),
            ping_ms: self.ping_ms,
        }
    }
}

// Presets.

/// Without the presets for the target, in whatever case it is written, with the arguments.
pub open spec fn without_preset(presets: Seq<PresetModel>, target: Seq<char>, args: Seq<char>) -> Seq<PresetModel>
    decreases presets.len(),
{
    if presets.len() == 0 {
        Seq::empty()
    } else {
        let rest = without_preset(presets.drop_last(), target, args);
        if text::same_ignoring_case(presets.last().target, target) && presets.last().args == args {
            rest
        } else {
            rest.push(presets.last())
        }
    }
}

/// The preset in front of the others, in place of one for the same target with the same arguments.
pub open spec fn with_preset(presets: Seq<PresetModel>, preset: PresetModel) -> Seq<PresetModel> {
    bytes::clipped(seq![preset] + without_preset(presets, preset.target, preset.args), MAX_PRESETS as nat)
}

/// The preset that the user asks for: blanks around the target and the arguments do not count, and
/// one without a name is named after the target's file, or after the target where it names no file.
pub open spec fn preset_of(
    name: Option<Seq<char>>,
    target: Seq<char>,
    args: Option<Seq<char>>,
    file_name: Option<Seq<char>>,
) -> PresetModel {
    let clean = text::trimmed(target);
    PresetModel {
        name: match name {
            Some(n) => if injector::has_words(n) {
                n
            } else {
                match file_name {
                    Some(f) => f,
                    None => clean,
                }
            },
            None => match file_name {
                Some(f) => f,
                None => clean,
            },
        },
        target: clean,
        args: match args {
            Some(a) => text::trimmed(a),
            None => Seq::empty(),
        },
    }
}

fn is_blank(s: &str) -> (r: bool)
    ensures
        r == !injector::has_words(s@),
{
    text::chars_of(&text::trim(s)).len() == 0
}

fn make_preset(name: Option<&str>, target: &str, args: Option<&str>, file_name: Option<&str>) -> (r: PresetItem)
    ensures
        r@ == preset_of(str_model(name), target@, str_model(args), str_model(file_name)),
{
    let clean = text::trim(target);
    let clean_args = match args {
        Some(a) => text::trim(a),
        None => String::new(),
    };
    let fallback = match file_name {
        Some(f) => text::copy_text(f),
        None => text::copy_text(&clean),
    };
    let display = match name {
        Some(n) => if is_blank(n) {
            fallback
        } else {
            text::copy_text(n)
        },
        None => fallback,
    };
    let r = PresetItem { name: display, target: clean, args: clean_args };
    assert(args is None ==> r.args@ =~= Seq::empty());
    r
}

fn put_preset(presets: &mut Vec<PresetItem>, preset: PresetItem)
    ensures
        preset_models(final(presets)@) == with_preset(preset_models(old(presets)@), preset@),
{
    let ghost all = preset_models(presets@);
    let ghost wanted = preset@;
    let mut kept: Vec<PresetItem> = Vec::new();
    kept.push(preset);
    let mut i: usize = 0;
    assert(all.subrange(0, 0) =~= Seq::empty());
    assert(preset_models(kept@) =~= seq![wanted] + without_preset(all.subrange(0, 0), wanted.target, wanted.args));
    while i < presets.len()
        invariant
            i <= presets@.len(),
            presets@ == old(presets)@,
            all == preset_models(presets@),
            kept@.len() > 0,
            kept@[0]@ == wanted,
            preset_models(kept@) == seq![wanted] + without_preset(
                all.subrange(0, i as int),
                wanted.target,
                wanted.args,
            ),
        decreases presets@.len() - i,
    {
        let ghost part = all.subrange(0, i + 1);
        let ghost before = kept@;
        assert(part.drop_last() =~= all.subrange(0, i as int));
        assert(part.last() == presets@[i as int]@);
        let p = &presets[i];
        if !(text::eq_ignore_ascii_case(&p.target, &kept[0].target) && text::same(&p.args, &kept[0].args)) {
            kept.push(p.clone());
            assert(preset_models(kept@) =~= preset_models(before).push(p@));
            assert(preset_models(kept@) =~= seq![wanted] + without_preset(part, wanted.target, wanted.args));
        }
        i = i + 1;
    }
    assert(all.subrange(0, all.len() as int) =~= all);
    if kept.len() > MAX_PRESETS {
        kept.truncate(MAX_PRESETS);
    }
    assert(preset_models(kept@) =~= with_preset(all, wanted));
    *presets = kept;
}

/// The presets of a new installation: the editor, where it is installed, and a connection test.
pub open spec fn first_presets(editor: Option<Seq<char>>) -> Seq<PresetModel> {
    let test = PresetModel {
        name: "curl.exe (连通性测速)"@,
        target: "C:\\Windows\\System32\\curl.exe"@,
        args: "https://api.ipify.org -v"@,
    };
    match editor {
        Some(path) => seq![
            PresetModel { name: "Antigravity (AI IDE)"@, target: path, args: "--no-proxy-server"@ },
            test,
        ],
        None => seq![test],
    }
}

/// The presets of a new installation; `editor` is the path of the editor, where it is installed.
pub fn default_presets(editor: Option<&str>) -> (r: Vec<PresetItem>)
    ensures
        preset_models(r@) == first_presets(str_model(editor)),
{
    let mut r: Vec<PresetItem> = Vec::new();
    match editor {
        Some(path) => {
            r.push(
                PresetItem {
                    name: text::copy_text("Antigravity (AI IDE)"),
                    target: text::copy_text(path),
                    args: text::copy_text("--no-proxy-server"),
                },
            );
        },
        None => {},
    }
    r.push(
        PresetItem {
            name: text::copy_text("curl.exe (连通性测速)"),
            target: text::copy_text("C:\\Windows\\System32\\curl.exe"),
            args: text::copy_text("https://api.ipify.org -v"),
        },
    );
    assert(preset_models(r@) =~= first_presets(str_model(editor)));
    r
}

// Rules as the user writes them.

/// The action that a word, in lower case, stands for.
pub open spec fn action_of(word: Seq<char>) -> RouteAction {
    if word == "direct"@ {
        RouteAction::Direct
    } else if word == "block"@ {
        RouteAction::Block
    } else {
        RouteAction::Proxy
    }
}

/// A number of at most `max`, whatever white space is around it; `otherwise` where it is none.
pub open spec fn number_or(s: Option<Seq<char>>, max: nat, otherwise: nat) -> nat {
    match s {
        Some(s) => match text::unsigned(text::trimmed(s), max) {
            Some(n) => n,
            None => otherwise,
        },
        None => otherwise,
    }
}

/// The pattern that a kind, in lower case, and a value stand for.
pub open spec fn pattern_of(kind: Seq<char>, value: Seq<char>) -> PatternModel {
    if kind == "domain_suffix"@ {
        PatternModel::DomainSuffix(text::strip_start(value, '.'))
    } else if kind == "domain_keyword"@ {
        PatternModel::DomainKeyword(value)
    } else if kind == "domain_exact"@ {
        PatternModel::DomainExact(value)
    } else if kind == "ip_cidr"@ {
        let (ip, len) = text::first_two(value, '/');
        PatternModel::IpCidr { ip: text::trimmed(ip), prefix_len: number_or(len, 255, 32) as u8 }
    } else if kind == "port"@ {
        PatternModel::Port(number_or(Some(value), 65535, 80) as u16)
    } else if kind == "port_range"@ {
        let (first, last) = text::first_two(text::dots_to_hyphen(value), '-');
        let start = number_or(Some(first), 65535, 1);
        PatternModel::PortRange { start: start as u16, end: number_or(last, 65535, start) as u16 }
    } else {
        PatternModel::Final
    }
}

fn parse_action(word: &str) -> (r: RouteAction)
    ensures
        r == action_of(word@),
{
    if text::same(word, "direct") {
        RouteAction::Direct
    } else if text::same(word, "block") {
        RouteAction::Block
    } else {
        RouteAction::Proxy
    }
}

fn parse_number_or(s: Option<&str>, max: u16, otherwise: u16) -> (r: u16)
    ensures
        r == number_or(str_model(s), max as nat, otherwise as nat),
{
    match s {
        Some(s) => match text::parse_unsigned(&text::trim(s), max) {
            Some(n) => n,
            None => otherwise,
        },
        None => otherwise,
    }
}

fn split_two(s: &str, c: char) -> (r: (String, Option<String>))
    ensures
        (r.0@, string_model(r.1)) == text::first_two(s@, c),
{
    let (first, rest) = text::cut(s, c);
    match rest {
        Some(rest) => {
            let (second, _) = text::cut(&rest, c);
            (first, Some(second))
        },
        None => (first, None),
    }
}

fn as_str<'a>(s: &'a Option<String>) -> (r: Option<&'a str>)
    ensures
        str_model(r) == string_model(*s),
{
    match s {
        Some(s) => Some(s.as_str()),
        None => None,
    }
}

/// The pattern that a kind, in lower case, and a value stand for.
pub fn parse_pattern(kind: &str, value: &str) -> (r: RulePattern)
    ensures
        r@ == pattern_of(kind@, value@),
{
    if text::same(kind, "domain_suffix") {
        RulePattern::DomainSuffix(text::strip_start_matches(value, '.'))
    } else if text::same(kind, "domain_keyword") {
        RulePattern::DomainKeyword(text::copy_text(value))
    } else if text::same(kind, "domain_exact") {
        RulePattern::DomainExact(text::copy_text(value))
    } else if text::same(kind, "ip_cidr") {
        let (ip, len) = split_two(value, '/');
        let prefix_len: u16 = parse_number_or(as_str(&len), 255, 32);
        proof {
            lemma_number_or(string_model(len), 255, 32);
        }
        RulePattern::IpCidr { ip: text::trim(&ip), prefix_len: prefix_len as u8 }
    } else if text::same(kind, "port") {
        RulePattern::Port(parse_number_or(Some(value), 65535, 80))
    } else if text::same(kind, "port_range") {
        let (first, last) = split_two(&text::replace_dots(value), '-');
        let start: u16 = parse_number_or(Some(&first), 65535, 1);
        let end: u16 = parse_number_or(as_str(&last), 65535, start);
        RulePattern::PortRange { start, end }
    } else {
        RulePattern::Final
    }
}

proof fn lemma_number_or(s: Option<Seq<char>>, max: nat, otherwise: nat)
    requires
        otherwise <= max,
    ensures
        number_or(s, max, otherwise) <= max,
{
}

/// A rule as the user writes it, with the time in milliseconds, which its id is made of.
pub struct RuleForm {
    pub name: String,
    pub pattern_type: String,
    pub pattern_val: String,
    pub action: String,
    pub millis: u64,
}

/// The rule that is written; `kind` and `word` are its pattern's kind and its action in lower case.
pub open spec fn rule_of(form: RuleForm, kind: Seq<char>, word: Seq<char>) -> RuleModel {
    RuleModel {
        id: "rule-"@ + text::dec(form.millis as nat),
        name: form.name@,
        pattern: pattern_of(kind, form.pattern_val@),
        action: action_of(word),
        enabled: true,
    }
}

/// The rule that is written; `kind` and `word` are its pattern's kind and its action in lower case.
pub fn rule_from_form(form: &RuleForm, kind: &str, word: &str) -> (r: RuleItem)
    ensures
        r@ == rule_of(*form, kind@, word@),
{
    RuleItem {
        id: text::join("rule-", &text::dec_text(form.millis)),
        name: text::copy_text(&form.name),
        pattern: parse_pattern(kind, &form.pattern_val),
        action: parse_action(word),
        enabled: true,
    }
}

// Commands.

/// What the user asks for.
#[allow(inconsistent_fields)]
pub enum Command {
    GetState,
    BrowseFile,
    StartRelay { proxy: String, strict_dns: bool },
    StopRelay,
    LaunchProcess { target: String, args: Option<String>, proxy: Option<String>, strict_dns: Option<bool> },
    KillProcess { pid: u32 },
    /// `file_name` is the name of the target's file, where it names one.
    AddPreset { name: Option<String>, target: String, args: Option<String>, file_name: Option<String> },
    DeletePreset { index: usize },
    AddRule(RuleForm),
    DeleteRule { id: String },
    ToggleRule { id: String, enabled: bool },
    SetRulePreset { preset: String },
    ClearSessions,
    PingUpstream { proxy: String },
    WindowReady,
}

/// What is left to be done outside; the state is shown again after it.
#[derive(Debug)]
pub enum Task {
    /// Nothing.
    Refresh,
    /// See which processes still run, and look for their descendants.
    CheckProcesses,
    BrowseFile,
    StartRelay { proxy: String, strict_dns: bool },
    StopRelay,
    /// Launch the target; before that, start the relay anew where `restart` says with what.
    Launch { restart: Option<(String, bool)>, target: String, args: Option<String> },
    /// Kill the process, where there is a handle to it.
    Kill { handle: usize },
    SavePresets,
    SaveRules,
    Ping { proxy: String },
    ShowWindow,
}

pub enum TaskModel {
    Refresh,
    CheckProcesses,
    BrowseFile,
    StartRelay { proxy: Seq<char>, strict_dns: bool },
    StopRelay,
    Launch { restart: Option<(Seq<char>, bool)>, target: Seq<char>, args: Option<Seq<char>> },
    Kill { handle: usize },
    SavePresets,
    SaveRules,
    Ping { proxy: Seq<char> },
    ShowWindow,
}

impl View for Task {
    type V = TaskModel;

    open spec fn view(&self) -> TaskModel {
        match self {
            Task::Refresh => TaskModel::Refresh,
            Task::CheckProcesses => TaskModel::CheckProcesses,
            Task::BrowseFile => TaskModel::BrowseFile,
            Task::StartRelay { proxy, strict_dns } => TaskModel::StartRelay { proxy: proxy@, strict_dns: *strict_dns },
            Task::StopRelay => TaskModel::StopRelay,
            Task::Launch { restart, target, args } => TaskModel::Launch {
                restart: match restart {
                    Some((p, d)) => Some((p@, *d)),
                    None => None,
                },
                target: target@,
                args: string_model(*args),
            },
            Task::Kill { handle } => TaskModel::Kill { handle: *handle },
            Task::SavePresets => TaskModel::SavePresets,
            Task::SaveRules => TaskModel::SaveRules,
            Task::Ping { proxy } => TaskModel::Ping { proxy: proxy@ },
            Task::ShowWindow => TaskModel::ShowWindow,
        }
    }
}

/// The place of the first process with the id that runs; the number of processes where there is none.
pub open spec fn running_place(processes: Seq<ProcessModel>, pid: u32) -> int
    decreases processes.len(),
{
    if processes.len() == 0 || (processes[0].pid == pid && processes[0].running) {
        0
    } else {
        1 + running_place(processes.drop_first(), pid)
    }
}

proof fn lemma_running_place(processes: Seq<ProcessModel>, pid: u32, k: int)
    requires
        0 <= k <= processes.len(),
        forall|j: int| 0 <= j < k ==> !((#[trigger] processes[j]).pid == pid && processes[j].running),
        k < processes.len() ==> processes[k].pid == pid && processes[k].running,
    ensures
        running_place(processes, pid) == k,
    decreases processes.len(),
{
    if k > 0 {
        let t = processes.drop_first();
        assert(!(processes[0].pid == pid && processes[0].running));
        assert forall|j: int| 0 <= j < k - 1 implies !((#[trigger] t[j]).pid == pid && t[j].running) by {
            assert(!(processes[j + 1].pid == pid && processes[j + 1].running));
        }
        lemma_running_place(t, pid, k - 1);
    }
}

/// The rules that a preset stands for; the smart ones for a preset that is not known.
pub open spec fn rules_for_preset(name: Seq<char>) -> Seq<RuleModel> {
    match launch::preset_rules(name) {
        Some(r) => r,
        None => router::smart_rules(),
    }
}

impl ConsoleModel {
    pub open spec fn logging(self, message: Seq<char>) -> ConsoleModel {
        ConsoleModel { last_log: Some(message), ..self }
    }

    /// The proxy that a launch asks for, where it is another than the present one.
    pub open spec fn new_proxy(self, proxy: Option<Seq<char>>) -> Option<Seq<char>> {
        match proxy {
            Some(p) => if injector::has_words(p) && text::trimmed(p) != self.upstream_proxy {
                Some(text::trimmed(p))
            } else {
                None
            },
            None => None,
        }
    }

    /// The console after a command.
    pub open spec fn after(self, command: Command) -> ConsoleModel {
        match command {
            Command::StopRelay => if self.relay is Some {
                ConsoleModel { relay: None, ..self }.logging("[RELAY] 本地透明中继已停止"@)
            } else {
                self
            },
            Command::LaunchProcess { target, args, proxy, strict_dns } => ConsoleModel {
                upstream_proxy: match self.new_proxy(string_model(proxy)) {
                    Some(p) => p,
                    None => self.upstream_proxy,
                },
                strict_dns: match strict_dns {
                    Some(d) => d,
                    None => self.strict_dns,
                },
                ..self
            },
            Command::KillProcess { pid } => {
                let k = running_place(self.processes, pid);
                if k < self.processes.len() {
                    ConsoleModel {
                        processes: self.processes.update(
                            k,
                            ProcessModel { running: false, exit_code: 1, ..self.processes[k] },
                        ),
                        ..self
                    }.logging("[PROC] 已终止 PID "@ + text::dec(pid as nat))
                } else {
                    self
                }
            },
            Command::AddPreset { name, target, args, file_name } => if injector::has_words(target@) {
                let preset = preset_of(string_model(name), target@, string_model(args), string_model(file_name));
                ConsoleModel { presets: with_preset(self.presets, preset), ..self }.logging(
                    "[PRESET] 已添加快捷预设: "@ + preset.name,
                )
            } else {
                self
            },
            Command::DeletePreset { index } => if index < self.presets.len() {
                ConsoleModel { presets: self.presets.remove(index as int), ..self }.logging(
                    "[PRESET] 已删除快捷预设: "@ + self.presets[index as int].name,
                )
            } else {
                self
            },
            Command::AddRule(form) => self.logging("[RULE] 已新增分流规则: "@ + form.name@),
            Command::DeleteRule { .. } => self.logging("[RULE] 已删除分流规则"@),
            Command::ToggleRule { id, enabled } => self.logging(
                if enabled {
                    "[RULE] 规则状态已更新 (启用=true)"@
                } else {
                    "[RULE] 规则状态已更新 (启用=false)"@
                },
            ),
            Command::SetRulePreset { preset } => self.logging("[RULE] 已切换分流预设为: "@ + preset@),
            Command::ClearSessions => self.logging("[SESSION] 实时连接历史已清空"@),
            _ => self,
        }
    }

    /// What a command leaves to be done outside.
    pub open spec fn task(self, command: Command) -> TaskModel {
        match command {
            Command::GetState => TaskModel::CheckProcesses,
            Command::BrowseFile => TaskModel::BrowseFile,
            Command::StartRelay { proxy, strict_dns } => TaskModel::StartRelay { proxy: proxy@, strict_dns },
            Command::StopRelay => if self.relay is Some {
                TaskModel::StopRelay
            } else {
                TaskModel::Refresh
            },
            Command::LaunchProcess { target, args, proxy, strict_dns } => TaskModel::Launch {
                restart: match self.new_proxy(string_model(proxy)) {
                    Some(p) => if self.relay is Some {
                        Some(
                            (
                                p,
                                match strict_dns {
                                    Some(d) => d,
                                    None => self.strict_dns,
                                },
                            ),
                        )
                    } else {
                        None
                    },
                    None => None,
                },
                target: target@,
                args: string_model(args),
            },
            Command::KillProcess { pid } => {
                let k = running_place(self.processes, pid);
                if k < self.processes.len() && self.processes[k].handle != 0 {
                    TaskModel::Kill { handle: self.processes[k].handle }
                } else {
                    TaskModel::Refresh
                }
            },
            Command::AddPreset { target, .. } => if injector::has_words(target@) {
                TaskModel::SavePresets
            } else {
                TaskModel::Refresh
            },
            Command::DeletePreset { index } => if index < self.presets.len() {
                TaskModel::SavePresets
            } else {
                TaskModel::Refresh
            },
            Command::AddRule(_)
            | Command::DeleteRule { .. }
            | Command::ToggleRule { .. }
            | Command::SetRulePreset { .. } => TaskModel::SaveRules,
            Command::ClearSessions => TaskModel::Refresh,
            Command::PingUpstream { proxy } => TaskModel::Ping { proxy: proxy@ },
            Command::WindowReady => TaskModel::ShowWindow,
        }
    }
}

/// The rules after a command.
pub open spec fn rules_after(rules: Seq<RuleModel>, command: Command) -> Seq<RuleModel> {
    match command {
        Command::AddRule(form) => router::with_rule(
            rules,
            rule_of(form, text::lowercase(form.pattern_type@), text::lowercase(form.action@)),
        ),
        Command::DeleteRule { id } => router::without_rule(rules, id@),
        Command::ToggleRule { id, enabled } => router::with_enabled(rules, id@, enabled),
        Command::SetRulePreset { preset } => rules_for_preset(text::lowercase(preset@)),
        _ => rules,
    }
}

/// The sessions after a command.
pub open spec fn sessions_after(tracker: TrackerModel, command: Command) -> TrackerModel {
    match command {
        Command::ClearSessions => tracker.cleared(),
        _ => tracker,
    }
}

impl Console {
    /// The console when the program starts.
    pub fn new(presets: Vec<PresetItem>) -> (r: Console)
        ensures
            r@ == (ConsoleModel {
                relay: None,
                upstream_proxy: "127.0.0.1:7897"@,
                strict_dns: true,
                processes: Seq::empty(),
                presets: preset_models(presets@),
                last_log: Some("[SYS] 系统就绪，等待操作"@),
                ping_ms: None,
            }),
    {
        let r = Console {
            relay: None,
            upstream_proxy: text::copy_text("127.0.0.1:7897"),
            strict_dns: true,
            processes: Vec::new(),
            presets,
            last_log: Some(text::copy_text("[SYS] 系统就绪，等待操作")),
            ping_ms: None,
        };
        assert(r@.processes =~= Seq::empty());
        r
    }

    /// Shows a message.
    pub fn log(&mut self, message: &str)
        ensures
            final(self)@ == old(self)@.logging(message@),
    {
        self.last_log = Some(text::copy_text(message));
    }

    fn log_joined(&mut self, message: &str, rest: &str)
        ensures
            final(self)@ == old(self)@.logging(message@ + rest@),
    {
        self.last_log = Some(text::join(message, rest));
    }

    fn find_running(&self, pid: u32) -> (r: usize)
        ensures
            r == running_place(self@.processes, pid),
            r <= self.processes@.len(),
    {
        let mut k: usize = 0;
        while k < self.processes.len() && !(self.processes[k].pid == pid && self.processes[k].running)
            invariant
                k <= self.processes@.len(),
                forall|j: int|
                    0 <= j < k ==> !((#[trigger] self@.processes[j]).pid == pid && self@.processes[j].running),
            decreases self.processes@.len() - k,
        {
            k = k + 1;
        }
        proof {
            lemma_running_place(self@.processes, pid, k as int);
        }
        k
    }

    /// Marks the first process with the id that runs as killed; gives its handle, if there is one.
    fn kill_process(&mut self, pid: u32) -> (r: Task)
        ensures
            final(self)@ == old(self)@.after(Command::KillProcess { pid }),
            r@ == old(self)@.task(Command::KillProcess { pid }),
    {
        let k: usize = self.find_running(pid);
        if k >= self.processes.len() {
            return Task::Refresh;
        }
        let handle: usize = self.processes[k].handle;
        self.processes[k].running = false;
        self.processes[k].exit_code = 1;
        assert(self@.processes =~= old(self)@.processes.update(
            k as int,
            ProcessModel { running: false, exit_code: 1, ..old(self)@.processes[k as int] },
        ));
        let number = text::dec_text(pid as u64);
        self.log_joined("[PROC] 已终止 PID ", &number);
        if handle != 0 {
            Task::Kill { handle }
        } else {
            Task::Refresh
        }
    }

    /// Does what a command asks for, as far as it concerns the console, the rules and the sessions;
    /// says what is left to be done outside.
    pub fn handle_command(&mut self, command: Command, rules: &mut Router, tracker: &mut SessionTracker) -> (r: Task)
        ensures
            final(self)@ == old(self)@.after(command),
            r@ == old(self)@.task(command),
            final(rules)@ == rules_after(old(rules)@, command),
            final(tracker)@ == sessions_after(old(tracker)@, command),
    {
        match command {
            Command::GetState => Task::CheckProcesses,
            Command::BrowseFile => Task::BrowseFile,
            Command::StartRelay { proxy, strict_dns } => Task::StartRelay { proxy, strict_dns },
            Command::StopRelay => {
                if self.relay.is_some() {
                    self.relay = None;
                    self.log("[RELAY] 本地透明中继已停止");
                    Task::StopRelay
                } else {
                    Task::Refresh
                }
            },
            Command::LaunchProcess { target, args, proxy, strict_dns } => {
                let mut restart: Option<(String, bool)> = None;
                match &proxy {
                    Some(p) => {
                        let clean = text::trim(p);
                        if text::chars_of(&clean).len() > 0 && !text::same(&clean, &self.upstream_proxy) {
                            if self.relay.is_some() {
                                let dns: bool = match strict_dns {
                                    Some(d) => d,
                                    None => self.strict_dns,
                                };
                                restart = Some((text::copy_text(&clean), dns));
                            }
                            self.upstream_proxy = clean;
                        }
                    },
                    None => {},
                }
                match strict_dns {
                    Some(d) => {
                        self.strict_dns = d;
                    },
                    None => {},
                }
                Task::Launch { restart, target, args }
            },
            Command::KillProcess { pid } => self.kill_process(pid),
            Command::AddPreset { name, target, args, file_name } => {
                if is_blank(&target) {
                    return Task::Refresh;
                }
                let preset = make_preset(as_str(&name), &target, as_str(&args), as_str(&file_name));
                let shown = text::copy_text(&preset.name);
                put_preset(&mut self.presets, preset);
                self.log_joined("[PRESET] 已添加快捷预设: ", &shown);
                Task::SavePresets
            },
            Command::DeletePreset { index } => {
                if index >= self.presets.len() {
                    return Task::Refresh;
                }
                let removed = self.presets.remove(index);
                assert(self@.presets =~= old(self)@.presets.remove(index as int));
                self.log_joined("[PRESET] 已删除快捷预设: ", &removed.name);
                Task::SavePresets
            },
            Command::AddRule(form) => {
                let kind = text::to_lowercase(&form.pattern_type);
                let word = text::to_lowercase(&form.action);
                rules.add_rule(rule_from_form(&form, &kind, &word));
                self.log_joined("[RULE] 已新增分流规则: ", &form.name);
                Task::SaveRules
            },
            Command::DeleteRule { id } => {
                rules.remove_rule(&id);
                self.log("[RULE] 已删除分流规则");
                Task::SaveRules
            },
            Command::ToggleRule { id, enabled } => {
                rules.set_rule_enabled(&id, enabled);
                self.log(
                    if enabled {
                        "[RULE] 规则状态已更新 (启用=true)"
                    } else {
                        "[RULE] 规则状态已更新 (启用=false)"
                    },
                );
                Task::SaveRules
            },
            Command::SetRulePreset { preset } => {
                *rules = match launch::preset_for(&preset) {
                    Some(r) => r,
                    None => Router::preset_smart(),
                };
                self.log_joined("[RULE] 已切换分流预设为: ", &preset);
                Task::SaveRules
            },
            Command::ClearSessions => {
                tracker.clear();
                self.log("[SESSION] 实时连接历史已清空");
                Task::Refresh
            },
            Command::PingUpstream { proxy } => Task::Ping { proxy },
            Command::WindowReady => Task::ShowWindow,
        }
    }
}

// What comes of the work outside.

/// How a test of the upstream proxy came out.
pub enum PingOutcome {
    /// The proxy's address is none; holds why.
    BadAddress(String),
    /// The handshake took this many milliseconds.
    Answered(u64),
    /// Holds what went wrong.
    Failed(String),
    TimedOut,
}

/// The list of ids as it is shown to a user.
pub open spec fn pids_text(pids: Seq<u32>) -> Seq<char> {
    "["@ + pids_inner(pids) + "]"@
}

pub open spec fn pids_inner(pids: Seq<u32>) -> Seq<char>
    decreases pids.len(),
{
    if pids.len() == 0 {
        Seq::empty()
    } else if pids.len() == 1 {
        text::dec(pids[0] as nat)
    } else {
        pids_inner(pids.drop_last()) + ", "@ + text::dec(pids.last() as nat)
    }
}

fn show_pids(pids: &[u32]) -> (r: String)
    ensures
        r@ == pids_text(pids@),
{
    let mut r = text::copy_text("[");
    let mut i: usize = 0;
    assert(pids@.subrange(0, 0) =~= Seq::empty());
    assert(r@ =~= "["@ + pids_inner(pids@.subrange(0, 0)));
    while i < pids.len()
        invariant
            i <= pids@.len(),
            r@ == "["@ + pids_inner(pids@.subrange(0, i as int)),
        decreases pids@.len() - i,
    {
        let ghost part = pids@.subrange(0, i + 1);
        assert(part.drop_last() =~= pids@.subrange(0, i as int));
        if i > 0 {
            r.append(", ");
        }
        text::push_dec(&mut r, pids[i] as u64);
        assert(r@ =~= "["@ + pids_inner(part));
        i = i + 1;
    }
    assert(pids@.subrange(0, pids@.len() as int) =~= pids@);
    r.append("]");
    r
}

impl ConsoleModel {
    pub open spec fn relay_started(
        self,
        proxy: Seq<char>,
        strict_dns: bool,
        local: SocketAddr,
        upstream: SocketAddr,
    ) -> ConsoleModel {
        ConsoleModel { relay: Some(local), upstream_proxy: proxy, strict_dns, ..self }.logging(
            "[RELAY] 本地透明中继已启动在 "@ + local.text() + ", 上游: "@ + upstream.text(),
        )
    }

    pub open spec fn pinged(self, outcome: PingOutcome) -> ConsoleModel {
        match outcome {
            PingOutcome::BadAddress(m) => ConsoleModel { ping_ms: None, ..self }.logging("[PING] 代理地址格式无效: "@ + m@),
            PingOutcome::Answered(ms) => ConsoleModel { ping_ms: Some(ms), ..self }.logging(
                "[PING] 上游代理握手成功，延迟: "@ + text::dec(ms as nat) + " ms"@,
            ),
            PingOutcome::Failed(m) => ConsoleModel { ping_ms: None, ..self }.logging("[PING] 代理连接失败: "@ + m@),
            PingOutcome::TimedOut => ConsoleModel { ping_ms: None, ..self }.logging("[PING] 代理连接超时 (3000ms)"@),
        }
    }

    /// Other instances of the program run: the user is warned.
    pub open spec fn warned(self, file_name: Seq<char>, pids: Seq<u32>) -> ConsoleModel {
        if pids.len() == 0 {
            self
        } else {
            self.logging(
                "[警告] 发现已有运行中的 "@ + file_name + " 实例 (PID: "@ + pids_text(pids)
                    + ")！建议先退出旧实例再启动，以确保全量劫持流量。"@,
            )
        }
    }

    pub open spec fn launched(
        self,
        pid: u32,
        file_name: Seq<char>,
        target: Seq<char>,
        target_quoted: Seq<char>,
        arch: Seq<char>,
        handle: usize,
    ) -> ConsoleModel {
        ConsoleModel {
            processes: self.processes.push(
                ProcessModel { pid, name: file_name, path: target, arch, handle, running: true, exit_code: 0 },
            ),
            ..self
        }.logging(
            "[INJECT] 成功注入 "@ + target_quoted + " (PID: "@ + text::dec(pid as nat) + ", 架构: "@ + arch + ")"@,
        )
    }

    /// The process is one whose end can be seen.
    pub open spec fn watched(self, i: int) -> bool {
        self.processes[i].running && self.processes[i].handle != 0
    }

    /// The process at `i` was asked for its exit code.
    pub open spec fn polled(self, i: int, code: Option<u32>) -> ConsoleModel {
        if self.watched(i) && code is Some && code->0 != launch::STILL_ACTIVE {
            let p = self.processes[i];
            ConsoleModel {
                processes: self.processes.update(
                    i,
                    ProcessModel { running: false, exit_code: code->0, handle: 0, ..p },
                ),
                ..self
            }.logging(
                "[PROC] 进程 "@ + p.name + " (PID: "@ + text::dec(p.pid as nat) + ") 退出，代码: "@ + text::dec(
                    code->0 as nat,
                ),
            )
        } else {
            self
        }
    }

    /// The program ends: the relay stops and no handle is held.
    pub open spec fn closed(self) -> ConsoleModel {
        ConsoleModel {
            processes: Seq::new(self.processes.len(), |i: int| ProcessModel { handle: 0, ..self.processes[i] }),
            ..self.after(Command::StopRelay)
        }
    }

    pub open spec fn tracks(self, pid: u32) -> bool {
        exists|i: int| 0 <= i < self.processes.len() && (#[trigger] self.processes[i]).pid == pid
    }

    /// A descendant is taken under control, unless it is already.
    pub open spec fn adopted(self, child: EntryModel, handle: usize) -> ConsoleModel {
        if self.tracks(child.pid) {
            self
        } else {
            ConsoleModel {
                processes: self.processes.push(
                    ProcessModel {
                        pid: child.pid,
                        name: child.name,
                        path: child.name,
                        arch: "X64"@,
                        handle,
                        running: true,
                        exit_code: 0,
                    },
                ),
                ..self
            }.logging(
                "[INJECT] 自动纳管并注入子进程 "@ + child.name + " (PID: "@ + text::dec(child.pid as nat) + ")"@,
            )
        }
    }
}

/// The ids of the processes that run.
pub open spec fn running_pids(processes: Seq<ProcessModel>) -> Seq<u32>
    decreases processes.len(),
{
    if processes.len() == 0 {
        Seq::empty()
    } else if processes.last().running {
        running_pids(processes.drop_last()).push(processes.last().pid)
    } else {
        running_pids(processes.drop_last())
    }
}

/// The handles that are held.
pub open spec fn held_handles(processes: Seq<ProcessModel>) -> Seq<usize>
    decreases processes.len(),
{
    if processes.len() == 0 {
        Seq::empty()
    } else if processes.last().handle != 0 {
        held_handles(processes.drop_last()).push(processes.last().handle)
    } else {
        held_handles(processes.drop_last())
    }
}

impl Console {
    /// The relay runs.
    pub fn relay_started(&mut self, proxy: &str, strict_dns: bool, local: SocketAddr, upstream: SocketAddr)
        ensures
            final(self)@ == old(self)@.relay_started(proxy@, strict_dns, local, upstream),
    {
        self.relay = Some(local);
        self.upstream_proxy = text::copy_text(proxy);
        self.strict_dns = strict_dns;
        let mut m = text::copy_text("[RELAY] 本地透明中继已启动在 ");
        m.append(&local.to_text());
        m.append(", 上游: ");
        m.append(&upstream.to_text());
        self.last_log = Some(m);
    }

    /// Shows an error.
    pub fn report_error(&mut self, message: &str)
        ensures
            final(self)@ == old(self)@.logging("[ERR] "@ + message@),
    {
        self.log_joined("[ERR] ", message);
    }

    /// The upstream proxy was tested.
    pub fn pinged(&mut self, outcome: PingOutcome)
        ensures
            final(self)@ == old(self)@.pinged(outcome),
    {
        match outcome {
            PingOutcome::BadAddress(m) => {
                self.ping_ms = None;
                self.log_joined("[PING] 代理地址格式无效: ", &m);
            },
            PingOutcome::Answered(ms) => {
                self.ping_ms = Some(ms);
                let mut m = text::copy_text("[PING] 上游代理握手成功，延迟: ");
                text::push_dec(&mut m, ms);
                m.append(" ms");
                self.last_log = Some(m);
            },
            PingOutcome::Failed(m) => {
                self.ping_ms = None;
                self.log_joined("[PING] 代理连接失败: ", &m);
            },
            PingOutcome::TimedOut => {
                self.ping_ms = None;
                self.log("[PING] 代理连接超时 (3000ms)");
            },
        }
    }

    /// Warns of other instances of the program.
    pub fn warn_of_instances(&mut self, file_name: &str, pids: &[u32])
        ensures
            final(self)@ == old(self)@.warned(file_name@, pids@),
    {
        if pids.len() == 0 {
            return;
        }
        let mut m = text::copy_text("[警告] 发现已有运行中的 ");
        m.append(file_name);
        m.append(" 实例 (PID: ");
        m.append(&show_pids(pids));
        m.append(")！建议先退出旧实例再启动，以确保全量劫持流量。");
        self.last_log = Some(m);
    }

    /// The relay to start before a launch: the one that is set, where none runs.
    pub fn relay_to_start(&self) -> (r: Option<(String, bool)>)
        ensures
            match r {
                Some((proxy, dns)) => self@.relay is None && proxy@ == self@.upstream_proxy && dns == self@.strict_dns,
                None => self@.relay is Some,
            },
    {
        if self.relay.is_none() {
            Some((text::copy_text(&self.upstream_proxy), self.strict_dns))
        } else {
            None
        }
    }

    /// A process was launched with the library in it. `target` is what the user typed, and
    /// `target_quoted` the same in quotes.
    pub fn launched(
        &mut self,
        pid: u32,
        file_name: &str,
        target: &str,
        target_quoted: &str,
        arch: Architecture,
        handle: usize,
    )
        ensures
            final(self)@ == old(self)@.launched(
                pid,
                file_name@,
                target@,
                target_quoted@,
                launch::architecture_text(arch),
                handle,
            ),
    {
        let ghost before = self@.processes;
        let arch_name = launch::architecture_name(arch);
        self.processes.push(
            TrackedProcess {
                pid,
                name: text::copy_text(file_name),
                path: text::copy_text(target),
                arch: text::copy_text(arch_name),
                handle,
                running: true,
                exit_code: 0,
            },
        );
        assert(self@.processes =~= before.push(
            ProcessModel {
                pid,
                name: file_name@,
                path: target@,
                arch: launch::architecture_text(arch),
                handle,
                running: true,
                exit_code: 0,
            },
        ));
        let mut m = text::copy_text("[INJECT] 成功注入 ");
        m.append(target_quoted);
        m.append(" (PID: ");
        text::push_dec(&mut m, pid as u64);
        m.append(", 架构: ");
        m.append(arch_name);
        m.append(")");
        self.last_log = Some(m);
    }

    /// The handle to ask for the exit code of the process at `i`, where its end can be seen.
    pub fn handle_to_poll(&self, i: usize) -> (r: Option<usize>)
        requires
            i < self@.processes.len(),
        ensures
            r == (if self@.watched(i as int) {
                Some(self@.processes[i as int].handle)
            } else {
                None
            }),
    {
        if self.processes[i].running && self.processes[i].handle != 0 {
            Some(self.processes[i].handle)
        } else {
            None
        }
    }

    /// The process at `i` was asked for its exit code, which is `None` where it could not be read.
    /// Gives the handle to close where the process has ended.
    pub fn update_process_status(&mut self, i: usize, code: Option<u32>) -> (r: Option<usize>)
        requires
            i < old(self)@.processes.len(),
        ensures
            final(self)@ == old(self)@.polled(i as int, code),
            r == (if old(self)@.watched(i as int) && code is Some && code->0 != launch::STILL_ACTIVE {
                Some(old(self)@.processes[i as int].handle)
            } else {
                None
            }),
            r is Some <==> old(self)@.processes[i as int].handle != 0 && final(self)@.processes[i as int].handle == 0,
    {
        if !(self.processes[i].running && self.processes[i].handle != 0) {
            return None;
        }
        let code: u32 = match code {
            Some(c) => c,
            None => {
                return None;
            },
        };
        if code == launch::STILL_ACTIVE {
            return None;
        }
        let handle: usize = self.processes[i].handle;
        self.processes[i].running = false;
        self.processes[i].exit_code = code;
        self.processes[i].handle = 0;
        assert(self@.processes =~= old(self)@.processes.update(
            i as int,
            ProcessModel { running: false, exit_code: code, handle: 0, ..old(self)@.processes[i as int] },
        ));
        let mut m = text::copy_text("[PROC] 进程 ");
        m.append(&self.processes[i].name);
        m.append(" (PID: ");
        text::push_dec(&mut m, self.processes[i].pid as u64);
        m.append(") 退出，代码: ");
        text::push_dec(&mut m, code as u64);
        self.last_log = Some(m);
        Some(handle)
    }

    /// The ids of the processes that run: their descendants are looked for.
    pub fn active_pids(&self) -> (r: Vec<u32>)
        ensures
            r@ == running_pids(self@.processes),
    {
        let mut r: Vec<u32> = Vec::new();
        let ghost all = self@.processes;
        let mut i: usize = 0;
        assert(all.subrange(0, 0) =~= Seq::empty());
        while i < self.processes.len()
            invariant
                all == self@.processes,
                i <= self.processes@.len(),
                r@ == running_pids(all.subrange(0, i as int)),
            decreases self.processes@.len() - i,
        {
            assert(all.subrange(0, i + 1).drop_last() =~= all.subrange(0, i as int));
            if self.processes[i].running {
                r.push(self.processes[i].pid);
            }
            i = i + 1;
        }
        assert(all.subrange(0, all.len() as int) =~= all);
        r
    }

    /// Whether the process is under control, running or not.
    pub fn is_tracked(&self, pid: u32) -> (r: bool)
        ensures
            r == self@.tracks(pid),
    {
        let mut i: usize = 0;
        while i < self.processes.len()
            invariant
                i <= self.processes@.len(),
                forall|j: int| 0 <= j < i ==> (#[trigger] self@.processes[j]).pid != pid,
            decreases self.processes@.len() - i,
        {
            if self.processes[i].pid == pid {
                assert(self@.processes[i as int].pid == pid);
                return true;
            }
            i = i + 1;
        }
        false
    }

    /// Takes a descendant under control, unless it is already.
    pub fn adopt_child(&mut self, child: &ProcessEntry, handle: usize)
        ensures
            final(self)@ == old(self)@.adopted(child@, handle),
    {
        if self.is_tracked(child.pid) {
            return;
        }
        let ghost before = self@.processes;
        self.processes.push(
            TrackedProcess {
                pid: child.pid,
                name: text::copy_text(&child.name),
                path: text::copy_text(&child.name),
                arch: text::copy_text("X64"),
                handle,
                running: true,
                exit_code: 0,
            },
        );
        assert(self@.processes =~= before.push(
            ProcessModel {
                pid: child.pid,
                name: child.name@,
                path: child.name@,
                arch: "X64"@,
                handle,
                running: true,
                exit_code: 0,
            },
        ));
        let mut m = text::copy_text("[INJECT] 自动纳管并注入子进程 ");
        m.append(&child.name);
        m.append(" (PID: ");
        text::push_dec(&mut m, child.pid as u64);
        m.append(")");
        self.last_log = Some(m);
    }

    /// The program ends: gives the handles to close and holds none from then on; the relay stops.
    pub fn close(&mut self) -> (r: Vec<usize>)
        ensures
            r@ == held_handles(old(self)@.processes),
            final(self)@ == old(self)@.closed(),
    {
        if self.relay.is_some() {
            self.relay = None;
            self.log("[RELAY] 本地透明中继已停止");
        }
        let ghost all = self@.processes;
        let ghost rest = self@;
        let mut r: Vec<usize> = Vec::new();
        let mut i: usize = 0;
        assert(all.subrange(0, 0) =~= Seq::empty());
        while i < self.processes.len()
            invariant
                i <= self.processes@.len(),
                self@.processes.len() == all.len(),
                r@ == held_handles(all.subrange(0, i as int)),
                forall|j: int|
                    0 <= j < all.len() ==> #[trigger] self@.processes[j] == (if j < i {
                        ProcessModel { handle: 0, ..all[j] }
                    } else {
                        all[j]
                    }),
                self@ == (ConsoleModel { processes: self@.processes, ..rest }),
            decreases self.processes@.len() - i,
        {
            assert(all.subrange(0, i + 1).drop_last() =~= all.subrange(0, i as int));
            assert(self@.processes[i as int] == all[i as int]);
            let ghost before = self@.processes;
            if self.processes[i].handle != 0 {
                r.push(self.processes[i].handle);
                self.processes[i].handle = 0;
                assert(self@.processes =~= before.update(i as int, ProcessModel { handle: 0, ..all[i as int] }));
            }
            i = i + 1;
        }
        assert(all.subrange(0, all.len() as int) =~= all);
        assert(self@.processes =~= Seq::new(all.len(), |i: int| ProcessModel { handle: 0, ..all[i] }));
        r
    }
}

// What is shown.

/// A process as it is shown.
#[derive(Debug)]
pub struct ProcessInfo {
    pub pid: u32,
    pub name: String,
    pub path: String,
    pub arch: String,
    pub running: bool,
    pub exit_code: u32,
}

impl Clone for ProcessInfo {
    fn clone(&self) -> (r: ProcessInfo)
        ensures
            r.pid == self.pid,
            r.name@ == self.name@,
            r.path@ == self.path@,
            r.arch@ == self.arch@,
            r.running == self.running,
            r.exit_code == self.exit_code,
    {
        ProcessInfo {
            pid: self.pid,
            name: text::copy_text(&self.name),
            path: text::copy_text(&self.path),
            arch: text::copy_text(&self.arch),
            running: self.running,
            exit_code: self.exit_code,
        }
    }
}

/// All that is shown.
#[derive(Debug)]
pub struct FullState {
    pub relay_active: bool,
    pub relay_addr: Option<String>,
    pub bytes_sent: u64,
    pub bytes_received: u64,
    pub speed_up_bps: u64,
    pub speed_down_bps: u64,
    pub processes: Vec<ProcessInfo>,
    pub presets: Vec<PresetItem>,
    pub rules: Vec<RuleItem>,
    pub sessions: Vec<SessionRecord>,
    pub last_log: Option<String>,
    pub ping_ms: Option<u64>,
}

/// The process is shown as it is.
pub open spec fn shows(info: ProcessInfo, p: ProcessModel) -> bool {
    info.pid == p.pid && info.name@ == p.name && info.path@ == p.path && info.arch@ == p.arch && info.running
        == p.running && info.exit_code == p.exit_code
}

fn copy_option(s: &Option<String>) -> (r: Option<String>)
    ensures
        string_model(r) == string_model(*s),
{
    match s {
        Some(s) => Some(text::copy_text(s)),
        None => None,
    }
}

impl Console {
    fn process_infos(&self) -> (r: Vec<ProcessInfo>)
        ensures
            r@.len() == self@.processes.len(),
            forall|i: int| 0 <= i < r@.len() ==> shows(#[trigger] r@[i], self@.processes[i]),
    {
        let mut r: Vec<ProcessInfo> = Vec::new();
        let mut i: usize = 0;
        while i < self.processes.len()
            invariant
                i <= self.processes@.len(),
                r@.len() == i,
                forall|j: int| 0 <= j < i ==> shows(#[trigger] r@[j], self@.processes[j]),
            decreases self.processes@.len() - i,
        {
            let p = &self.processes[i];
            r.push(
                ProcessInfo {
                    pid: p.pid,
                    name: text::copy_text(&p.name),
                    path: text::copy_text(&p.path),
                    arch: text::copy_text(&p.arch),
                    running: p.running,
                    exit_code: p.exit_code,
                },
            );
            i = i + 1;
        }
        r
    }

    fn copy_presets(&self) -> (r: Vec<PresetItem>)
        ensures
            preset_models(r@) == self@.presets,
    {
        let mut r: Vec<PresetItem> = Vec::new();
        let mut i: usize = 0;
        while i < self.presets.len()
            invariant
                i <= self.presets@.len(),
                r@.len() == i,
                forall|j: int| 0 <= j < i ==> (#[trigger] r@[j])@ == self.presets@[j]@,
            decreases self.presets@.len() - i,
        {
            r.push(self.presets[i].clone());
            i = i + 1;
        }
        assert(preset_models(r@) =~= self@.presets);
        r
    }

    /// All that is shown: the console and the rules, the rates and totals `speeds` of the tracker and
    /// its `sessions`. While no relay runs the totals are not shown.
    pub fn full_state(&self, rules: &Router, speeds: (u64, u64, u64, u64), sessions: Vec<SessionRecord>) -> (r:
        FullState)
        ensures
            r.relay_active == (self@.relay is Some),
            string_model(r.relay_addr) == (match self@.relay {
                Some(sa) => Some(sa.text()),
                None => None,
            }),
            r.bytes_sent == (if self@.relay is Some {
                speeds.2
            } else {
                0
            }),
            r.bytes_received == (if self@.relay is Some {
                speeds.3
            } else {
                0
            }),
            r.speed_up_bps == speeds.0,
            r.speed_down_bps == speeds.1,
            r.processes@.len() == self@.processes.len(),
            forall|i: int| 0 <= i < r.processes@.len() ==> shows(#[trigger] r.processes@[i], self@.processes[i]),
            preset_models(r.presets@) == self@.presets,
            Seq::new(r.rules@.len(), |i: int| r.rules@[i]@) == rules@,
            r.sessions == sessions,
            string_model(r.last_log) == self@.last_log,
            r.ping_ms == self@.ping_ms,
    {
        let active: bool = self.relay.is_some();
        let relay_addr = match self.relay {
            Some(sa) => Some(sa.to_text()),
            None => None,
        };
        let copy = rules.clone();
        FullState {
            relay_active: active,
            relay_addr,
            bytes_sent: if active {
                speeds.2
            } else {
                0
            },
            bytes_received: if active {
                speeds.3
            } else {
                0
            },
            speed_up_bps: speeds.0,
            speed_down_bps: speeds.1,
            processes: self.process_infos(),
            presets: self.copy_presets(),
            rules: copy.rules,
            sessions,
            last_log: copy_option(&self.last_log),
            ping_ms: self.ping_ms,
        }
    }
}

// Laws.

/// However many presets are added, no more than `MAX_PRESETS` are kept, and the last one added is in
/// front.
pub proof fn presets_are_bounded(presets: Seq<PresetModel>, preset: PresetModel)
    ensures
        with_preset(presets, preset).len() <= MAX_PRESETS,
        with_preset(presets, preset).len() > 0,
        with_preset(presets, preset)[0] == preset,
{
}

proof fn lemma_without_preset(presets: Seq<PresetModel>, target: Seq<char>, args: Seq<char>)
    ensures
        without_preset(presets, target, args).len() <= presets.len(),
        forall|i: int|
            0 <= i < without_preset(presets, target, args).len() ==> !(text::same_ignoring_case(
                (#[trigger] without_preset(presets, target, args)[i]).target,
                target,
            ) && without_preset(presets, target, args)[i].args == args),
    decreases presets.len(),
{
    if presets.len() > 0 {
        lemma_without_preset(presets.drop_last(), target, args);
    }
}

/// There is one preset for a target with the same arguments: the last one added.
pub proof fn presets_are_not_doubled(presets: Seq<PresetModel>, preset: PresetModel, i: int)
    requires
        0 < i < with_preset(presets, preset).len(),
    ensures
        !(text::same_ignoring_case(with_preset(presets, preset)[i].target, preset.target) && with_preset(
            presets,
            preset,
        )[i].args == preset.args),
{
    lemma_without_preset(presets, preset.target, preset.args);
    let rest = without_preset(presets, preset.target, preset.args);
    assert(with_preset(presets, preset)[i] == rest[i - 1]);
}

/// A descendant is taken under control once.
pub proof fn child_is_adopted_once(c: ConsoleModel, child: EntryModel, handle: usize, again: usize)
    ensures
        c.adopted(child, handle).tracks(child.pid),
        c.adopted(child, handle).adopted(child, again) == c.adopted(child, handle),
{
    if !c.tracks(child.pid) {
        let after = c.adopted(child, handle);
        assert(after.processes[c.processes.len() as int].pid == child.pid);
    }
}

/// The end of a process is seen once: from then on it is not asked for its exit code.
pub proof fn end_is_seen_once(c: ConsoleModel, i: int, code: u32)
    requires
        0 <= i < c.processes.len(),
        c.watched(i),
        code != launch::STILL_ACTIVE,
    ensures
        !c.polled(i, Some(code)).watched(i),
        c.polled(i, Some(code)).processes[i].exit_code == code,
{
}

proof fn lemma_decimal_is_clean(n: nat)
    ensures
        text::dec(n).len() > 0,
        text::trimmed(text::dec(n)) == text::dec(n),
        forall|i: int|
            0 <= i < text::dec(n).len() ==> (#[trigger] text::dec(n)[i]) != '-' && text::dec(n)[i] != '.' && text::dec(
                n,
            )[i] != '/',
{
    text::dec_is_read_back(n, n);
    let d = text::dec(n);
    assert forall|i: int| 0 <= i < d.len() implies (#[trigger] d[i]) != '-' && d[i] != '.' && d[i] != '/'
        && !text::white_space(d[i]) by {
        assert(text::is_digit(d[i]));
    }
    assert(!text::white_space(d[0]));
    assert(!text::white_space(d[d.len() - 1]));
    text::nothing_to_trim(d);
}

/// A port that the user writes is that port, and what is no port is port 80.
pub proof fn written_ports(port: u16, value: Seq<char>)
    ensures
        pattern_of("port"@, text::dec(port as nat)) == PatternModel::Port(port),
        text::unsigned(text::trimmed(value), 65535) is None ==> pattern_of("port"@, value) == PatternModel::Port(80),
{
    lemma_kinds();
    lemma_decimal_is_clean(port as nat);
    text::dec_is_read_back(port as nat, 65535);
}

/// A range that the user writes with a hyphen or with two dots between its ends is that range, and one port
/// alone is the range of that port.
pub proof fn written_ranges(start: u16, end: u16)
    ensures
        ({
            let a = text::dec(start as nat);
            let b = text::dec(end as nat);
            let range = PatternModel::PortRange { start, end };
            &&& pattern_of("port_range"@, a + seq!['-'] + b) == range
            &&& pattern_of("port_range"@, a + seq!['.', '.'] + b) == range
            &&& pattern_of("port_range"@, a) == (PatternModel::PortRange { start, end: start })
        }),
{
    lemma_kinds();
    let a = text::dec(start as nat);
    let b = text::dec(end as nat);
    lemma_decimal_is_clean(start as nat);
    lemma_decimal_is_clean(end as nat);
    text::dec_is_read_back(start as nat, 65535);
    text::dec_is_read_back(end as nat, 65535);
    let s = a + seq!['-'] + b;
    assert forall|i: int| 0 <= i < s.len() implies #[trigger] s[i] != '.' by {
        if i < a.len() {
            assert(s[i] == a[i]);
        } else if i > a.len() {
            assert(s[i] == b[i - a.len() - 1]);
        }
    }
    text::dots_become_a_hyphen(s, Seq::empty());
    text::dots_become_a_hyphen(a, b);
    text::dots_become_a_hyphen(b, Seq::empty());
    text::cut_of_joined(a, '-', b);
    text::text_is_cut_at_the_first(a, '-');
    text::text_is_cut_at_the_first(b, '-');
    if text::after(a, '-') is Some {
        let k = text::before(a, '-').len() as int;
        assert(a[k] == '-');
    }
    if text::after(b, '-') is Some {
        let k = text::before(b, '-').len() as int;
        assert(b[k] == '-');
    }
}

/// A network that the user writes is its address and its length, which is 32 where none is written.
pub proof fn written_networks(ip: Seq<char>, bits: u8)
    requires
        forall|i: int| 0 <= i < ip.len() ==> #[trigger] ip[i] != '/',
        ip.len() > 0 ==> !text::white_space(ip[0]) && !text::white_space(ip.last()),
    ensures
        pattern_of("ip_cidr"@, ip + seq!['/'] + text::dec(bits as nat)) == (PatternModel::IpCidr { ip, prefix_len: bits }),
        pattern_of("ip_cidr"@, ip) == (PatternModel::IpCidr { ip, prefix_len: 32 }),
{
    lemma_kinds();
    let b = text::dec(bits as nat);
    lemma_decimal_is_clean(bits as nat);
    text::dec_is_read_back(bits as nat, 255);
    text::cut_of_joined(ip, '/', b);
    text::text_is_cut_at_the_first(ip, '/');
    text::text_is_cut_at_the_first(b, '/');
    if text::after(ip, '/') is Some {
        let k = text::before(ip, '/').len() as int;
        assert(ip[k] == '/');
    }
    if text::after(b, '/') is Some {
        let k = text::before(b, '/').len() as int;
        assert(b[k] == '/');
    }
    if ip.len() > 0 {
        text::nothing_to_trim(ip);
    } else {
        let ends = text::trimming_takes_the_ends(ip);
        assert(text::trimmed(ip) =~= ip);
    }
}

/// The names that a user writes are taken as they are, but for dots before a domain; a kind that is not known
/// matches everything, and an action that is not known is the proxy.
pub proof fn written_names_and_actions(value: Seq<char>, dots: nat, kind: Seq<char>, word: Seq<char>)
    ensures
        pattern_of("domain_keyword"@, value) == PatternModel::DomainKeyword(value),
        pattern_of("domain_exact"@, value) == PatternModel::DomainExact(value),
        value.len() > 0 && value[0] != '.' ==> pattern_of("domain_suffix"@, Seq::new(dots, |i: int| '.') + value)
            == PatternModel::DomainSuffix(value),
        kind != "domain_suffix"@ && kind != "domain_keyword"@ && kind != "domain_exact"@ && kind != "ip_cidr"@ && kind
            != "port"@ && kind != "port_range"@ ==> pattern_of(kind, value) == PatternModel::Final,
        action_of("direct"@) == RouteAction::Direct,
        action_of("block"@) == RouteAction::Block,
        word != "direct"@ && word != "block"@ ==> action_of(word) == RouteAction::Proxy,
{
    lemma_kinds();
    reveal_strlit("direct");
    reveal_strlit("block");
    assert("direct"@.len() == 6 && "block"@.len() == 5);
    let whole = Seq::new(dots, |i: int| '.') + value;
    let k = text::strip_takes_the_run(whole, '.');
    if value.len() > 0 && value[0] != '.' {
        assert(whole[dots as int] == value[0]);
        if k < dots {
            assert(whole[k as int] == '.');
        }
        assert(k == dots);
        assert(whole.subrange(dots as int, whole.len() as int) =~= value);
    }
}

proof fn lemma_kinds()
    ensures
        "domain_suffix"@.len() == 13,
        "domain_keyword"@.len() == 14,
        "domain_exact"@.len() == 12,
        "ip_cidr"@.len() == 7,
        "port"@.len() == 4,
        "port_range"@.len() == 10,
{
    reveal_strlit("domain_suffix");
    reveal_strlit("domain_keyword");
    reveal_strlit("domain_exact");
    reveal_strlit("ip_cidr");
    reveal_strlit("port");
    reveal_strlit("port_range");
}

/// A rule that the user writes is on, has the name and is numbered by the time.
pub proof fn written_rules_are_on(form: RuleForm, kind: Seq<char>, word: Seq<char>)
    ensures
        rule_of(form, kind, word).enabled,
        rule_of(form, kind, word).name == form.name@,
        rule_of(form, kind, word).id == seq!['r', 'u', 'l', 'e', '-'] + text::dec(form.millis as nat),
        rule_of(form, kind, word).pattern == pattern_of(kind, form.pattern_val@),
        rule_of(form, kind, word).action == action_of(word),
{
    reveal_strlit("rule-");
    assert("rule-"@ =~= seq!['r', 'u', 'l', 'e', '-']);
}

/// A preset that is added comes first; of the others those stay, in their order, that are for another target
/// or have other arguments, and of these the first thirty-one.
pub proof fn other_presets_stay(presets: Seq<PresetModel>, more: Seq<PresetModel>, p: PresetModel, preset: PresetModel)
    ensures
        without_preset(seq![p], preset.target, preset.args) == (if text::letters_agree(p.target, preset.target) && p.args
            == preset.args {
            Seq::empty()
        } else {
            seq![p]
        }),
        without_preset(presets + more, preset.target, preset.args) == without_preset(presets, preset.target, preset.args)
            + without_preset(more, preset.target, preset.args),
        ({
            let rest = without_preset(presets, preset.target, preset.args);
            with_preset(presets, preset) == seq![preset] + (if rest.len() <= 31 {
                rest
            } else {
                rest.subrange(0, 31)
            })
        }),
    decreases more.len(),
{
    text::case_is_set_aside(p.target, preset.target);
    reveal_with_fuel(without_preset, 2);
    assert(seq![p].drop_last() =~= Seq::empty());
    assert(without_preset(seq![p], preset.target, preset.args) =~= (if text::letters_agree(p.target, preset.target)
        && p.args == preset.args {
        Seq::empty()
    } else {
        seq![p]
    }));
    let rest = without_preset(presets, preset.target, preset.args);
    assert(with_preset(presets, preset) =~= seq![preset] + (if rest.len() <= 31 {
        rest
    } else {
        rest.subrange(0, 31)
    }));
    if more.len() == 0 {
        assert(presets + more =~= presets);
        assert(rest + Seq::<PresetModel>::empty() =~= rest);
    } else {
        other_presets_stay(presets, more.drop_last(), p, preset);
        assert((presets + more).drop_last() =~= presets + more.drop_last());
        assert(without_preset(presets + more, preset.target, preset.args) =~= rest + without_preset(
            more,
            preset.target,
            preset.args,
        ));
    }
}

/// A preset holds the target and the arguments without white space around them, and the name that it is given,
/// or else that of the file, or else the target.
pub proof fn presets_hold_what_is_asked_for(
    name: Option<Seq<char>>,
    target: Seq<char>,
    args: Option<Seq<char>>,
    file_name: Option<Seq<char>>,
)
    ensures
        ({
            let p = preset_of(name, target, args, file_name);
            let given = name is Some && text::trimmed(name->0).len() > 0;
            &&& p.target == text::trimmed(target)
            &&& args is Some ==> p.args == text::trimmed(args->0)
            &&& args is None ==> p.args.len() == 0
            &&& given ==> p.name == name->0
            &&& !given && file_name is Some ==> p.name == file_name->0
            &&& !given && file_name is None ==> p.name == text::trimmed(target)
        }),
{
}

proof fn lemma_running_place_bounds(processes: Seq<ProcessModel>, pid: u32)
    ensures
        0 <= running_place(processes, pid) <= processes.len(),
        forall|j: int|
            0 <= j < running_place(processes, pid) ==> !((#[trigger] processes[j]).pid == pid && processes[j].running),
        running_place(processes, pid) < processes.len() ==> processes[running_place(processes, pid)].pid == pid
            && processes[running_place(processes, pid)].running,
    decreases processes.len(),
{
    if processes.len() > 0 && !(processes[0].pid == pid && processes[0].running) {
        let t = processes.drop_first();
        lemma_running_place_bounds(t, pid);
        assert forall|j: int| 0 <= j < running_place(processes, pid) implies !((#[trigger] processes[j]).pid == pid
            && processes[j].running) by {
            if j > 0 {
                assert(!(t[j - 1].pid == pid && t[j - 1].running));
            }
        }
    }
}

/// The first process with the id that runs is killed: it runs no more, and its handle is what is to be killed
/// by. No other process changes, and where none with the id runs nothing is done.
pub proof fn one_process_is_killed(c: ConsoleModel, pid: u32) -> (k: int)
    ensures
        0 <= k <= c.processes.len(),
        forall|j: int| 0 <= j < k ==> !((#[trigger] c.processes[j]).pid == pid && c.processes[j].running),
        ({
            let d = c.after(Command::KillProcess { pid });
            &&& d.processes.len() == c.processes.len()
            &&& forall|j: int| 0 <= j < c.processes.len() && j != k ==> #[trigger] d.processes[j] == c.processes[j]
            &&& k < c.processes.len() ==> c.processes[k].pid == pid && c.processes[k].running && !d.processes[k].running
                && d.processes[k].exit_code == 1 && d.processes[k].pid == pid && d.processes[k].handle
                == c.processes[k].handle && d.processes[k].name == c.processes[k].name && d.processes[k].path
                == c.processes[k].path && d.processes[k].arch == c.processes[k].arch
            &&& k < c.processes.len() && c.processes[k].handle != 0 ==> c.task(Command::KillProcess { pid })
                == (TaskModel::Kill { handle: c.processes[k].handle })
            &&& k < c.processes.len() && c.processes[k].handle == 0 ==> c.task(Command::KillProcess { pid }) is Refresh
            &&& k == c.processes.len() ==> d == c && c.task(Command::KillProcess { pid }) is Refresh
            &&& d.presets == c.presets && d.relay == c.relay && d.upstream_proxy == c.upstream_proxy
        }),
{
    lemma_running_place_bounds(c.processes, pid);
    running_place(c.processes, pid)
}

/// The relay is stopped where it runs; a launch with another proxy starts it anew with that and the mode that
/// is asked for, and keeps both.
pub proof fn relay_follows_the_commands(
    c: ConsoleModel,
    target: String,
    args: Option<String>,
    proxy: Option<String>,
    strict_dns: Option<bool>,
)
    ensures
        c.relay is Some ==> c.task(Command::StopRelay) is StopRelay,
        c.relay is None ==> c.task(Command::StopRelay) is Refresh && c.after(Command::StopRelay) == c,
        c.after(Command::StopRelay).relay is None,
        c.after(Command::StopRelay).processes == c.processes,
        ({
            let command = Command::LaunchProcess { target, args, proxy, strict_dns };
            let mode = if strict_dns is Some {
                strict_dns->0
            } else {
                c.strict_dns
            };
            let asked = match proxy {
                Some(p) => text::trimmed(p@),
                None => Seq::empty(),
            };
            let other = asked.len() > 0 && asked != c.upstream_proxy;
            match c.task(command) {
                TaskModel::Launch { restart, target: t, args: a } => {
                    &&& t == target@
                    &&& a == string_model(args)
                    &&& restart is Some <==> other && c.relay is Some
                    &&& restart is Some ==> restart->0 == (asked, mode)
                    &&& c.after(command).strict_dns == mode
                    &&& c.after(command).upstream_proxy == (if other {
                        asked
                    } else {
                        c.upstream_proxy
                    })
                },
                _ => false,
            }
        }),
{
}

/// A preset is deleted by its place, and those behind it move up; a place that is not there changes nothing.
pub proof fn presets_are_deleted_by_place(c: ConsoleModel, index: usize)
    ensures
        ({
            let d = c.after(Command::DeletePreset { index });
            &&& index < c.presets.len() ==> d.presets == c.presets.subrange(0, index as int) + c.presets.subrange(
                index + 1,
                c.presets.len() as int,
            ) && c.task(Command::DeletePreset { index }) is SavePresets
            &&& index >= c.presets.len() ==> d == c && c.task(Command::DeletePreset { index }) is Refresh
        }),
{
    if index < c.presets.len() {
        assert(c.presets.remove(index as int) =~= c.presets.subrange(0, index as int) + c.presets.subrange(
            index + 1,
            c.presets.len() as int,
        ));
    }
}

/// The ids of the processes that run and the handles that are held, in their order, and no other.
pub proof fn processes_are_listed(a: Seq<ProcessModel>, b: Seq<ProcessModel>, p: ProcessModel)
    ensures
        running_pids(seq![p]) == (if p.running {
            seq![p.pid]
        } else {
            Seq::empty()
        }),
        held_handles(seq![p]) == (if p.handle != 0 {
            seq![p.handle]
        } else {
            Seq::empty()
        }),
        running_pids(a + b) == running_pids(a) + running_pids(b),
        held_handles(a + b) == held_handles(a) + held_handles(b),
    decreases b.len(),
{
    reveal_with_fuel(running_pids, 2);
    reveal_with_fuel(held_handles, 2);
    assert(seq![p].drop_last() =~= Seq::empty());
    assert(running_pids(seq![p]) =~= (if p.running {
        seq![p.pid]
    } else {
        Seq::empty()
    }));
    assert(held_handles(seq![p]) =~= (if p.handle != 0 {
        seq![p.handle]
    } else {
        Seq::empty()
    }));
    if b.len() == 0 {
        assert(a + b =~= a);
        assert(running_pids(a) + Seq::<u32>::empty() =~= running_pids(a));
        assert(held_handles(a) + Seq::<usize>::empty() =~= held_handles(a));
    } else {
        processes_are_listed(a, b.drop_last(), p);
        assert((a + b).drop_last() =~= a + b.drop_last());
        assert(running_pids(a + b) =~= running_pids(a) + running_pids(b));
        assert(held_handles(a + b) =~= held_handles(a) + held_handles(b));
    }
}

/// A process that runs and has a handle has ended where its exit code is another than 259; then it runs no
/// more, has that code and no handle. No other process changes.
pub proof fn ends_are_seen_by_the_code(c: ConsoleModel, i: int, code: Option<u32>, j: int)
    requires
        0 <= i < c.processes.len(),
        0 <= j < c.processes.len(),
    ensures
        ({
            let d = c.polled(i, code);
            let over = c.processes[i].running && c.processes[i].handle != 0 && code is Some && code->0 != 259;
            &&& d.processes.len() == c.processes.len()
            &&& over ==> !d.processes[i].running && d.processes[i].exit_code == code->0 && d.processes[i].handle == 0
                && d.processes[i].pid == c.processes[i].pid && d.processes[i].name == c.processes[i].name
                && d.processes[i].path == c.processes[i].path && d.processes[i].arch == c.processes[i].arch
            &&& !over ==> d == c
            &&& j != i ==> d.processes[j] == c.processes[j]
        }),
{
}

/// A process that is launched, and a descendant that is not known yet, is added behind the others and runs.
pub proof fn launched_processes_are_added(
    c: ConsoleModel,
    pid: u32,
    name: Seq<char>,
    target: Seq<char>,
    quoted: Seq<char>,
    arch: Seq<char>,
    handle: usize,
    child: EntryModel,
)
    ensures
        ({
            let d = c.launched(pid, name, target, quoted, arch, handle);
            let p = d.processes.last();
            &&& d.processes.drop_last() == c.processes
            &&& p.pid == pid && p.name == name && p.path == target && p.arch == arch && p.handle == handle && p.running
                && p.exit_code == 0
        }),
        !c.tracks(child.pid) ==> {
            let d = c.adopted(child, handle);
            let p = d.processes.last();
            &&& d.processes.drop_last() == c.processes
            &&& p.pid == child.pid && p.name == child.name && p.path == child.name && p.handle == handle && p.running
                && p.exit_code == 0 && p.arch == seq!['X', '6', '4']
        },
        c.tracks(child.pid) ==> c.adopted(child, handle) == c,
{
    assert(c.launched(pid, name, target, quoted, arch, handle).processes.drop_last() =~= c.processes);
    reveal_strlit("X64");
    assert("X64"@ =~= seq!['X', '6', '4']);
    if !c.tracks(child.pid) {
        assert(c.adopted(child, handle).processes.drop_last() =~= c.processes);
    }
}

/// A relay that was started is shown with its address, and is what was asked for; a ping that was answered
/// shows how long it took, and any other shows nothing.
pub proof fn relay_and_ping_are_shown(
    c: ConsoleModel,
    proxy: Seq<char>,
    strict_dns: bool,
    local: SocketAddr,
    upstream: SocketAddr,
    outcome: PingOutcome,
)
    ensures
        c.relay_started(proxy, strict_dns, local, upstream).relay == Some(local),
        c.relay_started(proxy, strict_dns, local, upstream).upstream_proxy == proxy,
        c.relay_started(proxy, strict_dns, local, upstream).strict_dns == strict_dns,
        c.pinged(outcome).ping_ms == (match outcome {
            PingOutcome::Answered(ms) => Some(ms),
            _ => None,
        }),
        c.pinged(outcome).processes == c.processes && c.pinged(outcome).relay == c.relay,
{
}

/// The rules and the sessions change by the commands that are about them, as the router and the tracker change
/// them, and by no other.
pub proof fn rules_and_sessions_follow_the_commands(rules: Seq<RuleModel>, tracker: TrackerModel, command: Command)
    ensures
        match command {
            Command::AddRule(form) => exists|rule: RuleModel| #[trigger]
                router::with_rule(rules, rule) == rules_after(rules, command) && rule.name == form.name@ && rule.enabled
                    && rule.pattern == pattern_of(text::lowercase(form.pattern_type@), form.pattern_val@) && rule.action
                    == action_of(text::lowercase(form.action@)),
            Command::DeleteRule { id } => rules_after(rules, command) == router::without_rule(rules, id@),
            Command::ToggleRule { id, enabled } => rules_after(rules, command) == router::with_enabled(
                rules,
                id@,
                enabled,
            ),
            Command::SetRulePreset { preset } => {
                let known = launch::preset_rules(text::lowercase(preset@));
                (known is Some ==> rules_after(rules, command) == known->0) && (known is None ==> rules_after(
                    rules,
                    command,
                ) == router::smart_rules())
            },
            _ => rules_after(rules, command) == rules,
        },
        command is ClearSessions ==> sessions_after(tracker, command).history.len() == 0 && sessions_after(
            tracker,
            command,
        ).active == tracker.active,
        !(command is ClearSessions) ==> sessions_after(tracker, command) == tracker,
{
    match command {
        Command::AddRule(form) => {
            let rule = rule_of(form, text::lowercase(form.pattern_type@), text::lowercase(form.action@));
            assert(router::with_rule(rules, rule) == rules_after(rules, command));
        },
        _ => {},
    }
}

/// A preset is added where its target is more than white space, and what is to be kept is saved; other targets
/// add nothing.
pub proof fn presets_are_added_with_a_target(
    c: ConsoleModel,
    name: Option<String>,
    target: String,
    args: Option<String>,
    file_name: Option<String>,
)
    ensures
        ({
            let command = Command::AddPreset { name, target, args, file_name };
            let d = c.after(command);
            let some = text::trimmed(target@).len() > 0;
            &&& some ==> d.presets.len() > 0 && d.presets[0].target == text::trimmed(target@) && d.presets == with_preset(
                c.presets,
                d.presets[0],
            ) && d.presets[0] == preset_of(string_model(name), target@, string_model(args), string_model(file_name))
            &&& some <==> c.task(command) is SavePresets
            &&& !some ==> d == c && c.task(command) is Refresh
        }),
{
    let preset = preset_of(string_model(name), target@, string_model(args), string_model(file_name));
    other_presets_stay(c.presets, Seq::empty(), preset, preset);
}

/// Each command changes what it is about and nothing else, and leaves to be done what it names.
pub proof fn commands_change_what_they_are_about(c: ConsoleModel, command: Command)
    ensures
        ({
            let d = c.after(command);
            &&& !(command is AddPreset || command is DeletePreset) ==> d.presets == c.presets
            &&& !(command is KillProcess) ==> d.processes == c.processes
            &&& !(command is StopRelay) ==> d.relay == c.relay
            &&& !(command is LaunchProcess) ==> d.upstream_proxy == c.upstream_proxy && d.strict_dns == c.strict_dns
            &&& d.ping_ms == c.ping_ms
            &&& c.task(command) is SaveRules <==> command is AddRule || command is DeleteRule || command is ToggleRule
                || command is SetRulePreset
            &&& c.task(command) is SavePresets ==> command is AddPreset || command is DeletePreset
            &&& match command {
                Command::GetState => c.task(command) is CheckProcesses && d == c,
                Command::BrowseFile => c.task(command) is BrowseFile && d == c,
                Command::WindowReady => c.task(command) is ShowWindow && d == c,
                Command::PingUpstream { proxy } => c.task(command) == (TaskModel::Ping { proxy: proxy@ }) && d == c,
                Command::StartRelay { proxy, strict_dns } => c.task(command) == (TaskModel::StartRelay {
                    proxy: proxy@,
                    strict_dns,
                }) && d == c,
                Command::ClearSessions => c.task(command) is Refresh,
                _ => true,
            }
        }),
{
}

/// When the program ends the relay is stopped and no handle is held; what else is known of the processes stays.
pub proof fn closing_lets_go(c: ConsoleModel, i: int)
    requires
        0 <= i < c.processes.len(),
    ensures
        c.closed().relay is None,
        c.closed().processes.len() == c.processes.len(),
        c.closed().processes[i].handle == 0,
        c.closed().processes[i].pid == c.processes[i].pid,
        c.closed().processes[i].running == c.processes[i].running,
        c.closed().processes[i].name == c.processes[i].name,
        c.closed().processes[i].exit_code == c.processes[i].exit_code,
        c.closed().presets == c.presets,
        c.closed().upstream_proxy == c.upstream_proxy,
{
}

/// Ids are shown in brackets, in their order, with a comma and a blank between them. The user is warned where
/// there is any, and nothing but the message changes.
pub proof fn ids_are_shown_in_a_list(c: ConsoleModel, name: Seq<char>, pids: Seq<u32>, pid: u32)
    ensures
        pids_text(Seq::empty()) == seq!['[', ']'],
        pids_text(seq![pid]) == seq!['['] + text::dec(pid as nat) + seq![']'],
        pids.len() > 0 ==> pids_text(pids.push(pid)) == pids_text(pids).drop_last() + seq![',', ' '] + text::dec(
            pid as nat,
        ) + seq![']'],
        c.warned(name, Seq::empty()) == c,
        pids.len() > 0 ==> {
            let w = c.warned(name, pids);
            &&& w.last_log is Some && text::contains(w.last_log->0, name) && text::contains(w.last_log->0, pids_text(pids))
            &&& w.processes == c.processes && w.presets == c.presets && w.relay == c.relay && w.upstream_proxy
                == c.upstream_proxy && w.strict_dns == c.strict_dns && w.ping_ms == c.ping_ms
        },
{
    reveal_strlit("[");
    reveal_strlit("]");
    reveal_strlit(", ");
    reveal_with_fuel(pids_inner, 2);
    assert(pids_text(Seq::empty()) =~= seq!['[', ']']);
    assert(pids_text(seq![pid]) =~= seq!['['] + text::dec(pid as nat) + seq![']']);
    if pids.len() > 0 {
        let more = pids.push(pid);
        assert(more.drop_last() =~= pids);
        assert(pids_text(more) =~= pids_text(pids).drop_last() + seq![',', ' '] + text::dec(pid as nat) + seq![']']);
        let a = "[警告] 发现已有运行中的 "@;
        let b = " 实例 (PID: "@;
        let e = ")！建议先退出旧实例再启动，以确保全量劫持流量。"@;
        let list = pids_text(pids);
        let whole = a + name + b + list + e;
        text::middles_of_a_text(whole, name, a, b + list + e);
        text::middles_of_a_text(whole, list, a + name + b, e);
        assert(whole =~= a + name + (b + list + e));
    }
}

/// What is said of a command and of what came of the work names what it was about.
pub proof fn messages_name_what_they_are_about(
    c: ConsoleModel,
    pid: u32,
    index: usize,
    form: RuleForm,
    preset: String,
    i: int,
    code: u32,
    m: String,
)
    requires
        0 <= i < c.processes.len(),
    ensures
        (exists|j: int| 0 <= j < c.processes.len() && (#[trigger] c.processes[j]).pid == pid && c.processes[j].running)
            ==> says(c.after(Command::KillProcess { pid }), text::dec(pid as nat)),
        index < c.presets.len() ==> says(c.after(Command::DeletePreset { index }), c.presets[index as int].name),
        says(c.after(Command::AddRule(form)), form.name@),
        says(c.after(Command::SetRulePreset { preset }), preset@),
        c.processes[i].running && c.processes[i].handle != 0 && code != 259 ==> says(
            c.polled(i, Some(code)),
            text::dec(code as nat),
        ),
        says(c.pinged(PingOutcome::BadAddress(m)), m@),
        says(c.pinged(PingOutcome::Failed(m)), m@),
{
    lemma_running_place_bounds(c.processes, pid);
    text::ends_of_a_text("[PROC] 已终止 PID "@ + text::dec(pid as nat), text::dec(pid as nat), "[PROC] 已终止 PID "@);
    if index < c.presets.len() {
        let name = c.presets[index as int].name;
        text::ends_of_a_text("[PRESET] 已删除快捷预设: "@ + name, name, "[PRESET] 已删除快捷预设: "@);
    }
    text::ends_of_a_text("[RULE] 已新增分流规则: "@ + form.name@, form.name@, "[RULE] 已新增分流规则: "@);
    text::ends_of_a_text("[RULE] 已切换分流预设为: "@ + preset@, preset@, "[RULE] 已切换分流预设为: "@);
    text::ends_of_a_text("[PING] 代理地址格式无效: "@ + m@, m@, "[PING] 代理地址格式无效: "@);
    text::ends_of_a_text("[PING] 代理连接失败: "@ + m@, m@, "[PING] 代理连接失败: "@);
    let p = c.processes[i];
    let front = "[PROC] 进程 "@ + p.name + " (PID: "@ + text::dec(p.pid as nat) + ") 退出，代码: "@;
    text::ends_of_a_text(front + text::dec(code as nat), text::dec(code as nat), front);
}

/// The last message ends in the text.
pub open spec fn says(c: ConsoleModel, s: Seq<char>) -> bool {
    c.last_log is Some && text::ends_with(c.last_log->0, s)
}

/// Processes that are shown alike are alike in all that a user sees.
pub proof fn shown_processes_are_as_they_are(info: ProcessInfo, p: ProcessModel, q: ProcessModel)
    requires
        shows(info, p),
        shows(info, q),
    ensures
        p.pid == q.pid && p.name == q.name && p.path == q.path && p.arch == q.arch,
        p.running == q.running && p.exit_code == q.exit_code,
{
}

/// A new installation has the connection test, and before it the editor where that is installed, which is
/// started from its own path.
pub proof fn first_presets_of_an_installation(path: Seq<char>)
    ensures
        first_presets(None).len() == 1,
        first_presets(Some(path)).len() == 2,
        first_presets(Some(path))[0].target == path,
        first_presets(Some(path))[0].args == "--no-proxy-server"@,
        first_presets(Some(path))[1] == first_presets(None)[0],
        text::ends_with(first_presets(None)[0].target, seq!['c', 'u', 'r', 'l', '.', 'e', 'x', 'e']),
        SHOWN_SESSIONS == 60,
{
    reveal_strlit("C:\\Windows\\System32\\curl.exe");
    let s = "C:\\Windows\\System32\\curl.exe"@;
    assert(s.subrange(s.len() - 8, s.len() as int) =~= seq!['c', 'u', 'r', 'l', '.', 'e', 'x', 'e']);
}

/// The two ends of a range are read as ports, without white space around them: a first end that is none is 1,
/// and a last end that is none is the first. What is written behind a second hyphen is passed over.
pub proof fn ranges_of_two_texts(a: Seq<char>, b: Seq<char>, c: Seq<char>)
    requires
        forall|i: int| 0 <= i < a.len() ==> #[trigger] a[i] != '-' && a[i] != '.',
        forall|i: int| 0 <= i < b.len() ==> #[trigger] b[i] != '-' && b[i] != '.',
        forall|i: int| 0 <= i < c.len() ==> #[trigger] c[i] != '.',
    ensures
        ({
            let x = text::unsigned(text::trimmed(a), 65535);
            let y = text::unsigned(text::trimmed(b), 65535);
            let start = if x is Some {
                x->0 as u16
            } else {
                1
            };
            let end = if y is Some {
                y->0 as u16
            } else {
                start
            };
            &&& pattern_of("port_range"@, a + seq!['-'] + b) == (PatternModel::PortRange { start, end })
            &&& pattern_of("port_range"@, a + seq!['.', '.'] + b) == (PatternModel::PortRange { start, end })
            &&& pattern_of("port_range"@, a + seq!['-'] + (b + seq!['-'] + c)) == (PatternModel::PortRange { start, end })
            &&& pattern_of("port_range"@, a) == (PatternModel::PortRange { start, end: start })
        }),
{
    lemma_kinds();
    let s = a + seq!['-'] + b;
    let t = b + seq!['-'] + c;
    let w = a + seq!['-'] + t;
    assert forall|i: int| 0 <= i < s.len() implies #[trigger] s[i] != '.' by {
        if i < a.len() {
            assert(s[i] == a[i]);
        } else if i > a.len() {
            assert(s[i] == b[i - a.len() - 1]);
        }
    }
    assert forall|i: int| 0 <= i < t.len() implies #[trigger] t[i] != '.' by {
        if i < b.len() {
            assert(t[i] == b[i]);
        } else if i > b.len() {
            assert(t[i] == c[i - b.len() - 1]);
        }
    }
    assert forall|i: int| 0 <= i < w.len() implies #[trigger] w[i] != '.' by {
        if i < a.len() {
            assert(w[i] == a[i]);
        } else if i > a.len() {
            assert(w[i] == t[i - a.len() - 1]);
        }
    }
    text::dots_become_a_hyphen(s, Seq::empty());
    text::dots_become_a_hyphen(w, Seq::empty());
    text::dots_become_a_hyphen(a, b);
    text::dots_become_a_hyphen(b, Seq::empty());
    text::cut_of_joined(a, '-', b);
    text::cut_of_joined(a, '-', t);
    text::cut_of_joined(b, '-', c);
    text::text_is_cut_at_the_first(a, '-');
    text::text_is_cut_at_the_first(b, '-');
    if text::after(a, '-') is Some {
        let k = text::before(a, '-').len() as int;
        assert(a[k] == '-');
    }
    if text::after(b, '-') is Some {
        let k = text::before(b, '-').len() as int;
        assert(b[k] == '-');
    }
}

/// The length of a network is read as a number of at most 255, without white space around it, and is 32 where it
/// is none; the address stands without white space around it. A port is read in the same way.
pub proof fn networks_of_two_texts(ip: Seq<char>, bits: Seq<char>)
    requires
        forall|i: int| 0 <= i < ip.len() ==> #[trigger] ip[i] != '/',
        forall|i: int| 0 <= i < bits.len() ==> #[trigger] bits[i] != '/',
    ensures
        ({
            let n = text::unsigned(text::trimmed(bits), 255);
            let prefix_len = if n is Some {
                n->0 as u8
            } else {
                32
            };
            pattern_of("ip_cidr"@, ip + seq!['/'] + bits) == (PatternModel::IpCidr { ip: text::trimmed(ip), prefix_len })
        }),
        ({
            let n = text::unsigned(text::trimmed(bits), 65535);
            pattern_of("port"@, bits) == PatternModel::Port(
                if n is Some {
                    n->0 as u16
                } else {
                    80
                },
            )
        }),
{
    lemma_kinds();
    text::cut_of_joined(ip, '/', bits);
    text::text_is_cut_at_the_first(bits, '/');
    if text::after(bits, '/') is Some {
        let k = text::before(bits, '/').len() as int;
        assert(bits[k] == '/');
    }
}

} // verus!
