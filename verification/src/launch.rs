//! Launching: finding the target and the hook library, and what the launched process is told.

use vstd::prelude::*;
use crate::config;
use crate::injector;
use crate::injector::Architecture;
use crate::router;
use crate::router::{Router, RuleModel};
use crate::text;

verus! {

// The hook library.

/// The architecture as it is shown to a user.
pub open spec fn architecture_text(arch: Architecture) -> Seq<char> {
    match arch {
        Architecture::X86 => "X86"@,
        Architecture::X64 => "X64"@,
        Architecture::Arm64 => "Arm64"@,
    }
}

/// The architecture as it is shown to a user.
pub fn architecture_name(arch: Architecture) -> (r: &'static str)
    ensures
        r@ == architecture_text(arch),
{
    match arch {
        Architecture::X86 => "X86",
        Architecture::X64 => "X64",
        Architecture::Arm64 => "Arm64",
    }
}

/// The names of the hook library for an architecture, the better one first.
pub open spec fn dll_names_of(arch: Architecture) -> Option<(Seq<char>, Seq<char>)> {
    match arch {
        Architecture::X64 => Some(("shadow_hook.dll"@, "ghost_hook.dll"@)),
        Architecture::X86 => Some(("shadow_hook32.dll"@, "ghost_hook32.dll"@)),
        Architecture::Arm64 => None,
    }
}

/// The names of the hook library for an architecture, or why there is none.
pub fn dll_names(arch: Architecture) -> (r: Result<(&'static str, &'static str), String>)
    ensures
        match r {
            Ok((a, b)) => dll_names_of(arch) == Some((a@, b@)),
            Err(m) => dll_names_of(arch) is None && m@ == "暂不支持对目标架构 "@ + architecture_text(arch)
                + " 的自动 DLL 查找"@,
        },
{
    match arch {
        Architecture::X64 => Ok(("shadow_hook.dll", "ghost_hook.dll")),
        Architecture::X86 => Ok(("shadow_hook32.dll", "ghost_hook32.dll")),
        Architecture::Arm64 => {
            let mut m = text::copy_text("暂不支持对目标架构 ");
            m.append(architecture_name(arch));
            m.append(" 的自动 DLL 查找");
            Err(m)
        },
    }
}

/// The places under the working directory, the build directory and the user's home where a library
/// with the name is looked for, in that order.
pub open spec fn places(name: Seq<char>, target_dir: Option<Seq<char>>, home: Option<Seq<char>>) -> Seq<Seq<char>> {
    seq!["bin\\"@ + name, "target\\release\\"@ + name, "target\\debug\\"@ + name] + (match target_dir {
        Some(d) => seq![d + "\\release\\"@ + name, d + "\\debug\\"@ + name],
        None => Seq::empty(),
    }) + (match home {
        Some(h) => seq![
            h + "\\.cargo_target\\shadow-proxy\\release\\"@ + name,
            h + "\\.cargo_target\\shadow-proxy\\debug\\"@ + name,
            h + "\\.cargo_target\\ghost-proxifier\\release\\"@ + name,
            h + "\\.cargo_target\\ghost-proxifier\\debug\\"@ + name,
        ],
        None => Seq::empty(),
    })
}

pub open spec fn model(s: Option<&str>) -> Option<Seq<char>> {
    match s {
        Some(s) => Some(s@),
        None => None,
    }
}

fn join3(a: &str, b: &str, c: &str) -> (r: String)
    ensures
        r@ == a@ + b@ + c@,
{
    text::join(&text::join(a, b), c)
}

fn push_places(v: &mut Vec<String>, name: &str, target_dir: Option<&str>, home: Option<&str>)
    ensures
        injector::views(final(v)@) == injector::views(old(v)@) + places(name@, model(target_dir), model(home)),
{
    let ghost before = v@;
    v.push(text::join("bin\\", name));
    v.push(text::join("target\\release\\", name));
    v.push(text::join("target\\debug\\", name));
    match target_dir {
        Some(d) => {
            v.push(join3(d, "\\release\\", name));
            v.push(join3(d, "\\debug\\", name));
        },
        None => {},
    }
    match home {
        Some(h) => {
            v.push(join3(h, "\\.cargo_target\\shadow-proxy\\release\\", name));
            v.push(join3(h, "\\.cargo_target\\shadow-proxy\\debug\\", name));
            v.push(join3(h, "\\.cargo_target\\ghost-proxifier\\release\\", name));
            v.push(join3(h, "\\.cargo_target\\ghost-proxifier\\debug\\", name));
        },
        None => {},
    }
    assert(injector::views(v@) =~= injector::views(before) + places(name@, model(target_dir), model(home)));
}

/// The places where the hook library is looked for when it is not beside the program: those of the
/// better name first.
pub fn hook_dll_candidates(names: (&str, &str), target_dir: Option<&str>, home: Option<&str>) -> (r: Vec<String>)
    ensures
        injector::views(r@) == places(names.0@, model(target_dir), model(home)) + places(names.1@, model(target_dir), model(home)),
{
    let mut r: Vec<String> = Vec::new();
    push_places(&mut r, names.0, target_dir, home);
    push_places(&mut r, names.1, target_dir, home);
    assert(injector::views(r@) =~= places(names.0@, model(target_dir), model(home)) + places(
        names.1@,
        model(target_dir),
        model(home),
    ));
    r
}

/// The first candidate that is there.
pub open spec fn first_there<P>(candidates: Seq<(P, bool)>) -> Option<P>
    decreases candidates.len(),
{
    if candidates.len() == 0 {
        None
    } else if candidates[0].1 {
        Some(candidates[0].0)
    } else {
        first_there(candidates.drop_first())
    }
}

fn pick_first<P>(candidates: Vec<(P, bool)>) -> (r: Option<P>)
    ensures
        r == first_there(candidates@),
    decreases candidates@.len(),
{
    let ghost all = candidates@;
    let mut candidates = candidates;
    if candidates.len() == 0 {
        return None;
    }
    let (p, there) = candidates.remove(0);
    assert(candidates@ =~= all.drop_first());
    if there {
        Some(p)
    } else {
        pick_first(candidates)
    }
}

/// A library that was asked for, whether it is there, and how it is shown.
pub open spec fn shown_model<P>(explicit: Option<(P, bool, &str)>) -> Option<(P, bool, Seq<char>)> {
    match explicit {
        Some((p, there, shown)) => Some((p, there, shown@)),
        None => None,
    }
}

/// The hook library to load, or why there is none.
pub open spec fn hook_dll_of<P>(
    arch: Architecture,
    explicit: Option<(P, bool, Seq<char>)>,
    candidates: Seq<(P, bool)>,
    hint: Seq<char>,
) -> Result<P, Seq<char>> {
    match explicit {
        Some((p, there, shown)) => if there {
            Ok(p)
        } else {
            Err("指定的动态库路径不存在: "@ + shown)
        },
        None => match dll_names_of(arch) {
            None => Err("暂不支持对目标架构 "@ + architecture_text(arch) + " 的自动 DLL 查找"@),
            Some(_) => match first_there(candidates) {
                Some(p) => Ok(p),
                None => Err("未找到适用于 "@ + architecture_text(arch) + " 架构的 Hook 动态库"@ + hint),
            },
        },
    }
}

/// The hook library to load. One that was asked for is taken or nothing is; else the first candidate
/// that is there, each with whether it is. `explicit` holds the one that was asked for, whether it is
/// there, and how it is shown; `hint` ends the message where nothing is found.
pub fn resolve_hook_dll<P>(
    arch: Architecture,
    explicit: Option<(P, bool, &str)>,
    candidates: Vec<(P, bool)>,
    hint: &str,
) -> (r: Result<P, String>)
    ensures
        match r {
            Ok(p) => hook_dll_of(arch, shown_model(explicit), candidates@, hint@) == Ok::<P, Seq<char>>(p),
            Err(m) => hook_dll_of(arch, shown_model(explicit), candidates@, hint@) == Err::<P, Seq<char>>(m@),
        },
{
    match explicit {
        Some((p, there, shown)) => {
            return if there {
                Ok(p)
            } else {
                Err(text::join("指定的动态库路径不存在: ", shown))
            };
        },
        None => {},
    }
    match dll_names(arch) {
        Err(m) => {
            return Err(m);
        },
        Ok(_) => {},
    }
    match pick_first(candidates) {
        Some(p) => Ok(p),
        None => {
            let mut m = text::copy_text("未找到适用于 ");
            m.append(architecture_name(arch));
            m.append(" 架构的 Hook 动态库");
            m.append(hint);
            Err(m)
        },
    }
}

// The target.

/// What the user typed, without white space and quotes around it.
pub open spec fn cleaned(input: Seq<char>) -> Seq<char> {
    text::stripped(text::stripped(text::trimmed(input), '"'), '\'')
}

/// What the user typed, without white space and quotes around it.
pub fn clean_target(input: &str) -> (r: String)
    ensures
        r@ == cleaned(input@),
{
    text::strip_matches(&text::strip_matches(&text::trim(input), '"'), '\'')
}

/// The target to launch, or what is wrong with what the user typed.
pub open spec fn executable_of<P>(
    clean: Seq<char>,
    direct: (P, bool),
    relative: bool,
    elsewhere: Seq<(P, bool)>,
) -> Result<P, Seq<char>> {
    if clean.len() == 0 {
        Err("请输入或选择目标程序可执行文件路径"@)
    } else if direct.1 {
        Ok(direct.0)
    } else {
        match (if relative {
            first_there(elsewhere)
        } else {
            None
        }) {
            Some(p) => Ok(p),
            None => Err("目标程序路径不存在: "@ + clean),
        }
    }
}

/// The target to launch: what the user typed, and where that is a relative path that is not there,
/// the file of that name in the system's directory and then in the directories of the search path.
/// `clean` is what the user typed, cleaned; `elsewhere` holds the further candidates. Each comes with
/// whether it is there.
pub fn resolve_target_executable<P>(clean: &str, direct: (P, bool), relative: bool, elsewhere: Vec<(P, bool)>) -> (r:
    Result<P, String>)
    ensures
        match r {
            Ok(p) => executable_of(clean@, direct, relative, elsewhere@) == Ok::<P, Seq<char>>(p),
            Err(m) => executable_of(clean@, direct, relative, elsewhere@) == Err::<P, Seq<char>>(m@),
        },
{
    if text::chars_of(clean).len() == 0 {
        return Err(text::copy_text("请输入或选择目标程序可执行文件路径"));
    }
    if direct.1 {
        return Ok(direct.0);
    }
    if relative {
        match pick_first(elsewhere) {
            Some(p) => {
                return Ok(p);
            },
            None => {},
        }
    }
    Err(text::join("目标程序路径不存在: ", clean))
}

/// The arguments for the target; none where they are blank.
pub fn clean_args<'a>(args: Option<&'a str>) -> (r: Option<&'a str>)
    ensures
        r == match args {
            Some(a) => if crate::injector::has_words(a@) {
                Some(a)
            } else {
                None
            },
            None => None,
        },
{
    match args {
        Some(a) => if text::chars_of(&text::trim(a)).len() > 0 {
            Some(a)
        } else {
            None
        },
        None => None,
    }
}

// What the launched process is told.

/// The environment variables that tell the hook library of the relay, under the new names and the
/// old.
pub open spec fn relay_variables(port: u16, strict_dns: bool) -> Seq<(Seq<char>, Seq<char>)> {
    let p = text::dec(port as nat);
    let d = if strict_dns {
        "1"@
    } else {
        "0"@
    };
    seq![
        ("SHADOW_RELAY_PORT"@, p),
        ("GHOST_RELAY_PORT"@, p),
        ("SHADOW_STRICT_DNS"@, d),
        ("GHOST_STRICT_DNS"@, d),
    ]
}

/// The environment variables that tell the hook library of the relay.
pub fn relay_environment(port: u16, strict_dns: bool) -> (r: Vec<(&'static str, String)>)
    ensures
        Seq::new(r@.len(), |i: int| (r@[i].0@, r@[i].1@)) == relay_variables(port, strict_dns),
{
    let dns = if strict_dns {
        "1"
    } else {
        "0"
    };
    let mut r: Vec<(&'static str, String)> = Vec::new();
    r.push(("SHADOW_RELAY_PORT", text::dec_text(port as u64)));
    r.push(("GHOST_RELAY_PORT", text::dec_text(port as u64)));
    r.push(("SHADOW_STRICT_DNS", text::copy_text(dns)));
    r.push(("GHOST_STRICT_DNS", text::copy_text(dns)));
    assert(Seq::new(r@.len(), |i: int| (r@[i].0@, r@[i].1@)) =~= relay_variables(port, strict_dns));
    r
}

/// The credentials for the upstream proxy: a user name and a password, or nothing.
pub fn pair_credentials(username: Option<String>, password: Option<String>) -> (r: Option<(String, String)>)
    ensures
        r == match (username, password) {
            (Some(u), Some(p)) => Some((u, p)),
            _ => None,
        },
{
    match (username, password) {
        (Some(u), Some(p)) => Some((u, p)),
        _ => None,
    }
}

/// The exit code of a process that runs.
pub const STILL_ACTIVE: u32 = 259;

/// A process has ended: its exit code could be read, and is not that of one that runs.
pub fn has_exited(code: Option<u32>) -> (r: bool)
    ensures
        r == (code is Some && code->0 != STILL_ACTIVE),
        !r <==> code is None || code->0 == 259,
{
    match code {
        Some(c) => c != STILL_ACTIVE,
        None => false,
    }
}

// Rule presets.

/// The rules that a preset, named in lower case, stands for.
pub open spec fn preset_rules(name: Seq<char>) -> Option<Seq<RuleModel>> {
    if name == "smart"@ {
        Some(router::smart_rules())
    } else if name == "global"@ || name == "global_proxy"@ {
        Some(router::global_proxy_rules())
    } else if name == "direct"@ || name == "direct_all"@ {
        Some(router::direct_rules())
    } else {
        None
    }
}

/// The rules that a preset, named in lower case, stands for.
pub fn preset_named(name: &str) -> (r: Option<Router>)
    ensures
        match r {
            Some(router) => preset_rules(name@) == Some(router@),
            None => preset_rules(name@) is None,
        },
{
    if text::same(name, "smart") {
        Some(Router::preset_smart())
    } else if text::same(name, "global") || text::same(name, "global_proxy") {
        Some(Router::preset_global_proxy())
    } else if text::same(name, "direct") || text::same(name, "direct_all") {
        Some(Router::preset_direct_all())
    } else {
        None
    }
}

/// The rules that a preset stands for, in whatever case it is named.
pub fn preset_for(name: &str) -> (r: Option<Router>)
    ensures
        match r {
            Some(router) => preset_rules(text::lowercase(name@)) == Some(router@),
            None => preset_rules(text::lowercase(name@)) is None,
        },
{
    preset_named(&text::to_lowercase(name))
}

// Laws.

/// What is taken is there, and nothing before it is; where nothing is taken none is there.
pub proof fn first_that_is_there_is_taken<P>(candidates: Seq<(P, bool)>) -> (k: int)
    ensures
        0 <= k <= candidates.len(),
        forall|i: int| 0 <= i < k ==> !(#[trigger] candidates[i]).1,
        k < candidates.len() ==> candidates[k].1 && first_there(candidates) == Some(candidates[k].0),
        k == candidates.len() ==> first_there(candidates) is None,
    decreases candidates.len(),
{
    if candidates.len() == 0 || candidates[0].1 {
        0
    } else {
        let rest = candidates.drop_first();
        let k = first_that_is_there_is_taken(rest);
        assert forall|i: int| 0 <= i < k + 1 implies !(#[trigger] candidates[i]).1 by {
            if i > 0 {
                assert(!rest[i - 1].1);
            }
        }
        k + 1
    }
}

/// White space, then double quotes, then single quotes are taken off what the user typed; what is inside stays.
pub proof fn quotes_are_taken_off(path: Seq<char>)
    requires
        path.len() > 0,
        !text::white_space(path[0]) && path[0] != '"' && path[0] != '\'',
        !text::white_space(path.last()) && path.last() != '"' && path.last() != '\'',
    ensures
        cleaned(path) == path,
        cleaned(seq!['"'] + path + seq!['"']) == path,
        cleaned(seq!['\''] + path + seq!['\'']) == path,
        cleaned(seq![' ', '"'] + path + seq!['"', ' ']) == path,
{
    let a = seq!['"'] + path + seq!['"'];
    let b = seq!['\''] + path + seq!['\''];
    let c = seq![' ', '"'] + path + seq!['"', ' '];
    lemma_strip_ends(path, '"', 0);
    lemma_strip_ends(path, '\'', 0);
    lemma_strip_ends(path, '"', 1);
    lemma_strip_ends(path, '\'', 1);
    text::nothing_to_trim(path);
    text::nothing_to_trim(a);
    text::nothing_to_trim(b);
    let ends = text::trimming_takes_the_ends(c);
    assert(a =~= Seq::new(1, |i: int| '"') + path + Seq::new(1, |i: int| '"'));
    assert(b =~= Seq::new(1, |i: int| '\'') + path + Seq::new(1, |i: int| '\''));
    assert(path =~= Seq::new(0, |i: int| '"') + path + Seq::new(0, |i: int| '"'));
    assert(path =~= Seq::new(0, |i: int| '\'') + path + Seq::new(0, |i: int| '\''));
    assert(text::stripped(b, '"') == b) by {
        let k = text::stripping_takes_the_ends(b, '"');
        if k.0.len() > 0 {
            assert(b[0] == k.0[0]);
        }
        if k.1.len() > 0 {
            assert(b.last() == k.1.last());
        }
        assert(text::stripped(b, '"') =~= b);
    }
    assert(text::trimmed(c) == a) by {
        let t = text::trimmed(c);
        let p = ends.0;
        let q = ends.1;
        if p.len() == 0 {
            assert(t.len() > 0 ==> t[0] == c[0]);
            assert(c == t + q);
            if t.len() == 0 {
                assert(text::white_space(q[1]));
                assert(q[1] == c[1]);
            }
        }
        if p.len() > 1 {
            assert(p[1] == c[1]);
            assert(text::white_space(p[1]));
        }
        let n = c.len() as int;
        if q.len() == 0 {
            assert(t.len() > 0);
            assert(t.last() == c[n - 1]);
        }
        if q.len() > 1 {
            assert(q[q.len() - 2] == c[n - 2]);
            assert(text::white_space(q[q.len() - 2]));
        }
        assert(t =~= c.subrange(1, n - 1));
        assert(c.subrange(1, n - 1) =~= a);
    }
}

proof fn lemma_strip_ends(path: Seq<char>, c: char, n: nat)
    requires
        path.len() > 0,
        path[0] != c,
        path.last() != c,
    ensures
        text::stripped(Seq::new(n, |i: int| c) + path + Seq::new(n, |i: int| c), c) == path,
{
    let run = Seq::new(n, |i: int| c);
    let s = run + path + run;
    let (p, q) = text::stripping_takes_the_ends(s, c);
    let t = text::stripped(s, c);
    assert(s[n as int] == path[0]);
    assert(s[n + path.len() - 1] == path.last());
    if p.len() > n {
        assert(p[n as int] == s[n as int]);
    }
    if q.len() > n {
        assert(q[q.len() - n - 1] == s[s.len() - n - 1]);
    }
    if p.len() < n {
        assert(t.len() > 0);
        assert(t[0] == s[p.len() as int]);
    }
    if q.len() < n {
        assert(t.len() > 0);
        assert(t.last() == s[s.len() - q.len() - 1]);
    }
    assert(t =~= s.subrange(n as int, n as int + path.len()));
    assert(s.subrange(n as int, n as int + path.len()) =~= path);
}

/// What a launched process is told of the relay is what its hook library reads: the port, and strict mode,
/// under either name.
pub proof fn hook_library_reads_what_it_is_told(port: u16, strict_dns: bool, current: u16)
    ensures
        ({
            let v = relay_variables(port, strict_dns);
            &&& v.len() == 4
            &&& v[0].0 == "SHADOW_RELAY_PORT"@ && v[1].0 == "GHOST_RELAY_PORT"@ && v[2].0 == "SHADOW_STRICT_DNS"@ && v[3].0
                == "GHOST_STRICT_DNS"@
            &&& config::port_setting(Some(v[0].1), None, current) == port
            &&& config::port_setting(None, Some(v[1].1), current) == port
            &&& config::strict_setting(Some(v[2].1), None, true) == strict_dns
            &&& config::strict_setting(None, Some(v[3].1), true) == strict_dns
        }),
{
    reveal_strlit("0");
    reveal_strlit("1");
    let v = relay_variables(port, strict_dns);
    config::port_is_set_by_its_text(port, None, current);
    config::strict_mode_is_switched_off(Some(v[2].1), None, true);
    config::strict_mode_is_switched_off(None, Some(v[3].1), true);
    assert("0"@ =~= seq!['0']);
    assert("1"@ =~= seq!['1']);
    assert(seq!['1'][0] != seq!['0'][0]);
    assert(seq!['1'].len() == 1 && seq!['f', 'a', 'l', 's', 'e'].len() == 5);
}

/// The hook library has a name of its own for 32 bits and for 64, each under two names, and none for ARM.
pub proof fn hook_libraries_by_architecture(arch: Architecture)
    ensures
        dll_names_of(Architecture::X64) == Some(("shadow_hook.dll"@, "ghost_hook.dll"@)),
        dll_names_of(Architecture::X86) == Some(("shadow_hook32.dll"@, "ghost_hook32.dll"@)),
        dll_names_of(Architecture::Arm64) is None,
        architecture_text(Architecture::X86) == seq!['X', '8', '6'],
        architecture_text(Architecture::X64) == seq!['X', '6', '4'],
        architecture_text(Architecture::Arm64) == seq!['A', 'r', 'm', '6', '4'],
{
    reveal_strlit("X86");
    reveal_strlit("X64");
    reveal_strlit("Arm64");
    assert("X86"@ =~= seq!['X', '8', '6']);
    assert("X64"@ =~= seq!['X', '6', '4']);
    assert("Arm64"@ =~= seq!['A', 'r', 'm', '6', '4']);
}

/// Every place where a library is looked for ends in its name; three are always looked at, two more with a
/// build directory and four more with a home, below which they are.
pub proof fn places_end_in_the_name(name: Seq<char>, dir: Option<Seq<char>>, home: Option<Seq<char>>, i: int)
    requires
        0 <= i < places(name, dir, home).len(),
    ensures
        text::ends_with(places(name, dir, home)[i], name),
        places(name, dir, home).len() == 3 + (if dir is Some {
            2int
        } else {
            0int
        }) + (if home is Some {
            4int
        } else {
            0int
        }),
        dir is Some && 3 <= i < 5 ==> text::starts_with(places(name, dir, home)[i], dir->0),
        home is Some && i >= places(name, dir, home).len() - 4 ==> text::starts_with(
            places(name, dir, home)[i],
            home->0,
        ),
{
    let p = places(name, dir, home)[i];
    text::ends_of_a_text(name, name, "bin\\"@);
    text::ends_of_a_text(name, name, "target\\release\\"@);
    text::ends_of_a_text(name, name, "target\\debug\\"@);
    if dir is Some {
        let d = dir->0;
        lemma_place(d, "\\release\\"@, name);
        lemma_place(d, "\\debug\\"@, name);
    }
    if home is Some {
        let h = home->0;
        lemma_place(h, "\\.cargo_target\\shadow-proxy\\release\\"@, name);
        lemma_place(h, "\\.cargo_target\\shadow-proxy\\debug\\"@, name);
        lemma_place(h, "\\.cargo_target\\ghost-proxifier\\release\\"@, name);
        lemma_place(h, "\\.cargo_target\\ghost-proxifier\\debug\\"@, name);
    }
}

proof fn lemma_place(dir: Seq<char>, middle: Seq<char>, name: Seq<char>)
    ensures
        text::ends_with(dir + middle + name, name),
        text::starts_with(dir + middle + name, dir),
{
    text::ends_of_a_text(name, name, dir + middle);
    text::starts_of_a_text(dir, dir, middle + name);
    assert(dir + middle + name =~= dir + (middle + name));
}

/// The presets by their names.
pub proof fn presets_by_name(name: Seq<char>)
    ensures
        preset_rules(seq!['s', 'm', 'a', 'r', 't']) == Some(router::smart_rules()),
        preset_rules(seq!['g', 'l', 'o', 'b', 'a', 'l']) == Some(router::global_proxy_rules()),
        preset_rules("global_proxy"@) == Some(router::global_proxy_rules()),
        preset_rules(seq!['d', 'i', 'r', 'e', 'c', 't']) == Some(router::direct_rules()),
        preset_rules("direct_all"@) == Some(router::direct_rules()),
        preset_rules(name) is Some ==> name == "smart"@ || name == "global"@ || name == "global_proxy"@ || name
            == "direct"@ || name == "direct_all"@,
{
    reveal_strlit("smart");
    reveal_strlit("global");
    reveal_strlit("global_proxy");
    reveal_strlit("direct");
    reveal_strlit("direct_all");
    assert("smart"@ =~= seq!['s', 'm', 'a', 'r', 't']);
    assert("global"@ =~= seq!['g', 'l', 'o', 'b', 'a', 'l']);
    assert("direct"@ =~= seq!['d', 'i', 'r', 'e', 'c', 't']);
    assert("global"@.len() == 6 && "direct"@.len() == 6 && "global"@[0] == 'g' && "direct"@[0] == 'd');
    assert("smart"@.len() == 5 && "global_proxy"@.len() == 12 && "direct_all"@.len() == 10);
}

/// The places in the order in which they are tried: the working directory, the build directory and the user's
/// home, releases before debug builds.
pub proof fn places_in_their_order(name: Seq<char>, dir: Seq<char>, home: Seq<char>)
    ensures
        ({
            let all = places(name, Some(dir), Some(home));
            let near = places(name, None, None);
            &&& all.len() == 9 && near.len() == 3
            &&& all[0] == "bin\\"@ + name && all[1] == "target\\release\\"@ + name && all[2] == "target\\debug\\"@ + name
            &&& all[3] == dir + "\\release\\"@ + name && all[4] == dir + "\\debug\\"@ + name
            &&& all[5] == home + "\\.cargo_target\\shadow-proxy\\release\\"@ + name
            &&& all[6] == home + "\\.cargo_target\\shadow-proxy\\debug\\"@ + name
            &&& all[7] == home + "\\.cargo_target\\ghost-proxifier\\release\\"@ + name
            &&& all[8] == home + "\\.cargo_target\\ghost-proxifier\\debug\\"@ + name
            &&& near == all.subrange(0, 3)
            &&& places(name, Some(dir), None) == all.subrange(0, 5)
            &&& places(name, None, Some(home)) == all.subrange(0, 3) + all.subrange(5, 9)
        }),
{
}

/// What the user typed loses white space and quotes at its ends and nothing else.
pub proof fn only_the_ends_are_cleaned(input: Seq<char>) -> (r: (Seq<char>, Seq<char>))
    ensures
        input == r.0 + cleaned(input) + r.1,
        forall|i: int| 0 <= i < r.0.len() ==> text::white_space(#[trigger] r.0[i]) || r.0[i] == '"' || r.0[i] == '\'',
        forall|i: int| 0 <= i < r.1.len() ==> text::white_space(#[trigger] r.1[i]) || r.1[i] == '"' || r.1[i] == '\'',
        cleaned(input).len() > 0 ==> cleaned(input)[0] != '\'' && cleaned(input).last() != '\'',
{
    let t = text::trimmed(input);
    let s = text::stripped(t, '"');
    let a = text::trimming_takes_the_ends(input);
    let b = text::stripping_takes_the_ends(t, '"');
    let c = text::stripping_takes_the_ends(s, '\'');
    let front = a.0 + b.0 + c.0;
    let back = c.1 + b.1 + a.1;
    assert(input =~= front + cleaned(input) + back);
    (front, back)
}

/// What the user typed is launched where it is there; a relative path that is not there is launched from the
/// first other place where it is, and a path that is nowhere is reported.
pub proof fn targets_are_looked_for<P>(clean: Seq<char>, direct: (P, bool), relative: bool, elsewhere: Seq<(P, bool)>, k: int)
    requires
        0 <= k <= elsewhere.len(),
        forall|i: int| 0 <= i < k ==> !(#[trigger] elsewhere[i]).1,
        k < elsewhere.len() ==> elsewhere[k].1,
    ensures
        ({
            let r = executable_of(clean, direct, relative, elsewhere);
            &&& r is Ok <==> clean.len() > 0 && (direct.1 || relative && k < elsewhere.len())
            &&& clean.len() > 0 && direct.1 ==> r == Ok::<P, Seq<char>>(direct.0)
            &&& clean.len() > 0 && !direct.1 && relative && k < elsewhere.len() ==> r == Ok::<P, Seq<char>>(elsewhere[k].0)
            &&& clean.len() > 0 && r is Err ==> text::ends_with(r->Err_0, clean)
        }),
{
    let j = first_that_is_there_is_taken(elsewhere);
    text::ends_of_a_text(clean, clean, "目标程序路径不存在: "@);
}

/// A library that was asked for is taken where it is there, and nothing else in its place. Where none was asked
/// for, the first candidate that is there is taken, for the two architectures that there is a library for.
pub proof fn hook_library_that_is_loaded<P>(
    arch: Architecture,
    asked: P,
    there: bool,
    shown: Seq<char>,
    candidates: Seq<(P, bool)>,
    hint: Seq<char>,
    k: int,
)
    requires
        0 <= k <= candidates.len(),
        forall|i: int| 0 <= i < k ==> !(#[trigger] candidates[i]).1,
        k < candidates.len() ==> candidates[k].1,
    ensures
        ({
            let r = hook_dll_of(arch, Some((asked, there, shown)), candidates, hint);
            &&& there ==> r == Ok::<P, Seq<char>>(asked)
            &&& !there ==> r is Err && text::ends_with(r->Err_0, shown)
        }),
        ({
            let r = hook_dll_of(arch, None, candidates, hint);
            &&& arch == Architecture::Arm64 ==> r is Err
            &&& arch != Architecture::Arm64 && k < candidates.len() ==> r == Ok::<P, Seq<char>>(candidates[k].0)
            &&& arch != Architecture::Arm64 && k == candidates.len() ==> r is Err && text::ends_with(r->Err_0, hint)
        }),
{
    let j = first_that_is_there_is_taken(candidates);
    text::ends_of_a_text(shown, shown, "指定的动态库路径不存在: "@);
    text::ends_of_a_text(hint, hint, "未找到适用于 "@ + architecture_text(arch) + " 架构的 Hook 动态库"@);
}

} // verus!
