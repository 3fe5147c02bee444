//! The table of hooks: which functions of which system libraries are replaced.

use vstd::prelude::*;
use crate::text;

verus! {

/// A replacement for a system function.
#[derive(Clone, Copy, PartialEq, Eq, Structural, Hash, Debug)]
pub enum Hook {
    Connect,
    WsaConnect,
    GetAddrInfoW,
    GetAddrInfo,
    SendTo,
    WsaSendTo,
    WsaIoctl,
    ConnectEx,
    WsaSend,
    Send,
    CloseSocket,
    GetProcAddress,
    LoadLibraryW,
    LoadLibraryA,
    LoadLibraryExW,
    LoadLibraryExA,
    CreateProcessW,
    CreateProcessA,
}

/// A function to replace: the library that exports it, its name, and its ordinal where it can be
/// imported by one.
#[derive(Clone, Copy, Debug)]
pub struct HookDef {
    pub dll_name: &'static str,
    pub func_name: &'static str,
    /// Zero where the function is not imported by ordinal.
    pub ordinal: u16,
    pub hook: Hook,
}

pub struct HookModel {
    pub dll_name: Seq<char>,
    pub func_name: Seq<char>,
    pub ordinal: u16,
    pub hook: Hook,
}

impl View for HookDef {
    type V = HookModel;

    open spec fn view(&self) -> HookModel {
        HookModel {
            dll_name: self.dll_name@,
            func_name: self.func_name@,
            ordinal: self.ordinal,
            hook: self.hook,
        }
    }
}

pub open spec fn winsock(func_name: Seq<char>, ordinal: u16, hook: Hook) -> HookModel {
    HookModel { dll_name: "ws2_32.dll"@, func_name, ordinal, hook }
}

pub open spec fn kernel(func_name: Seq<char>, hook: Hook) -> HookModel {
    HookModel { dll_name: "kernel32.dll"@, func_name, ordinal: 0, hook }
}

/// The functions that are replaced where a module imports them.
pub open spec fn import_hooks() -> Seq<HookModel> {
    seq![
        winsock("connect"@, 4, Hook::Connect),
        winsock("WSAConnect"@, 46, Hook::WsaConnect),
        winsock("GetAddrInfoW"@, 31, Hook::GetAddrInfoW),
        winsock("getaddrinfo"@, 192, Hook::GetAddrInfo),
        winsock("sendto"@, 20, Hook::SendTo),
        winsock("WSASendTo"@, 73, Hook::WsaSendTo),
        winsock("WSAIoctl"@, 67, Hook::WsaIoctl),
        winsock("WSASend"@, 72, Hook::WsaSend),
        winsock("send"@, 19, Hook::Send),
        winsock("closesocket"@, 3, Hook::CloseSocket),
        kernel("GetProcAddress"@, Hook::GetProcAddress),
        kernel("LoadLibraryW"@, Hook::LoadLibraryW),
        kernel("LoadLibraryA"@, Hook::LoadLibraryA),
        kernel("LoadLibraryExW"@, Hook::LoadLibraryExW),
        kernel("LoadLibraryExA"@, Hook::LoadLibraryExA),
        kernel("CreateProcessW"@, Hook::CreateProcessW),
        kernel("CreateProcessA"@, Hook::CreateProcessA),
    ]
}

fn winsock_def(func_name: &'static str, ordinal: u16, hook: Hook) -> (r: HookDef)
    ensures
        r@ == winsock(func_name@, ordinal, hook),
{
    HookDef { dll_name: "ws2_32.dll", func_name, ordinal, hook }
}

fn kernel_def(func_name: &'static str, hook: Hook) -> (r: HookDef)
    ensures
        r@ == kernel(func_name@, hook),
{
    HookDef { dll_name: "kernel32.dll", func_name, ordinal: 0, hook }
}

/// The functions that are replaced where a module imports them.
pub fn build_hooks() -> (r: [HookDef; 17])
    ensures
        Seq::new(17, |i: int| r@[i]@) == import_hooks(),
{
    let r = [
        winsock_def("connect", 4, Hook::Connect),
        winsock_def("WSAConnect", 46, Hook::WsaConnect),
        winsock_def("GetAddrInfoW", 31, Hook::GetAddrInfoW),
        winsock_def("getaddrinfo", 192, Hook::GetAddrInfo),
        winsock_def("sendto", 20, Hook::SendTo),
        winsock_def("WSASendTo", 73, Hook::WsaSendTo),
        winsock_def("WSAIoctl", 67, Hook::WsaIoctl),
        winsock_def("WSASend", 72, Hook::WsaSend),
        winsock_def("send", 19, Hook::Send),
        winsock_def("closesocket", 3, Hook::CloseSocket),
        kernel_def("GetProcAddress", Hook::GetProcAddress),
        kernel_def("LoadLibraryW", Hook::LoadLibraryW),
        kernel_def("LoadLibraryA", Hook::LoadLibraryA),
        kernel_def("LoadLibraryExW", Hook::LoadLibraryExW),
        kernel_def("LoadLibraryExA", Hook::LoadLibraryExA),
        kernel_def("CreateProcessW", Hook::CreateProcessW),
        kernel_def("CreateProcessA", Hook::CreateProcessA),
    ];
    assert(Seq::new(17, |i: int| r@[i]@) =~= import_hooks());
    r
}

/// The replacement for a function that is looked up by name at run time: those of the import table,
/// but for the lookup itself, and `ConnectEx`, which no library exports under a name.
pub open spec fn hook_named(name: Seq<char>) -> Option<Hook> {
    if name == "connect"@ {
        Some(Hook::Connect)
    } else if name == "WSAConnect"@ {
        Some(Hook::WsaConnect)
    } else if name == "GetAddrInfoW"@ {
        Some(Hook::GetAddrInfoW)
    } else if name == "getaddrinfo"@ {
        Some(Hook::GetAddrInfo)
    } else if name == "sendto"@ {
        Some(Hook::SendTo)
    } else if name == "WSASendTo"@ {
        Some(Hook::WsaSendTo)
    } else if name == "LoadLibraryW"@ {
        Some(Hook::LoadLibraryW)
    } else if name == "LoadLibraryA"@ {
        Some(Hook::LoadLibraryA)
    } else if name == "LoadLibraryExW"@ {
        Some(Hook::LoadLibraryExW)
    } else if name == "LoadLibraryExA"@ {
        Some(Hook::LoadLibraryExA)
    } else if name == "CreateProcessW"@ {
        Some(Hook::CreateProcessW)
    } else if name == "CreateProcessA"@ {
        Some(Hook::CreateProcessA)
    } else if name == "WSAIoctl"@ {
        Some(Hook::WsaIoctl)
    } else if name == "ConnectEx"@ {
        Some(Hook::ConnectEx)
    } else if name == "WSASend"@ {
        Some(Hook::WsaSend)
    } else if name == "send"@ {
        Some(Hook::Send)
    } else if name == "closesocket"@ {
        Some(Hook::CloseSocket)
    } else {
        None
    }
}

/// The replacement for a function that is looked up by name at run time.
pub fn hook_for_name(name: &str) -> (r: Option<Hook>)
    ensures
        r == hook_named(name@),
{
    if text::same(name, "connect") {
        Some(Hook::Connect)
    } else if text::same(name, "WSAConnect") {
        Some(Hook::WsaConnect)
    } else if text::same(name, "GetAddrInfoW") {
        Some(Hook::GetAddrInfoW)
    } else if text::same(name, "getaddrinfo") {
        Some(Hook::GetAddrInfo)
    } else if text::same(name, "sendto") {
        Some(Hook::SendTo)
    } else if text::same(name, "WSASendTo") {
        Some(Hook::WsaSendTo)
    } else if text::same(name, "LoadLibraryW") {
        Some(Hook::LoadLibraryW)
    } else if text::same(name, "LoadLibraryA") {
        Some(Hook::LoadLibraryA)
    } else if text::same(name, "LoadLibraryExW") {
        Some(Hook::LoadLibraryExW)
    } else if text::same(name, "LoadLibraryExA") {
        Some(Hook::LoadLibraryExA)
    } else if text::same(name, "CreateProcessW") {
        Some(Hook::CreateProcessW)
    } else if text::same(name, "CreateProcessA") {
        Some(Hook::CreateProcessA)
    } else if text::same(name, "WSAIoctl") {
        Some(Hook::WsaIoctl)
    } else if text::same(name, "ConnectEx") {
        Some(Hook::ConnectEx)
    } else if text::same(name, "WSASend") {
        Some(Hook::WsaSend)
    } else if text::same(name, "send") {
        Some(Hook::Send)
    } else if text::same(name, "closesocket") {
        Some(Hook::CloseSocket)
    } else {
        None
    }
}

/// The replacement for a function of `ws2_32.dll` that is looked up by ordinal at run time.
pub open spec fn hook_numbered(ordinal: u16) -> Option<Hook> {
    if ordinal == 4 {
        Some(Hook::Connect)
    } else if ordinal == 46 {
        Some(Hook::WsaConnect)
    } else if ordinal == 31 {
        Some(Hook::GetAddrInfoW)
    } else if ordinal == 192 {
        Some(Hook::GetAddrInfo)
    } else if ordinal == 20 {
        Some(Hook::SendTo)
    } else if ordinal == 67 {
        Some(Hook::WsaIoctl)
    } else if ordinal == 72 {
        Some(Hook::WsaSend)
    } else if ordinal == 73 {
        Some(Hook::WsaSendTo)
    } else if ordinal == 19 {
        Some(Hook::Send)
    } else if ordinal == 3 {
        Some(Hook::CloseSocket)
    } else {
        None
    }
}

/// The replacement for a function of `ws2_32.dll` that is looked up by ordinal at run time.
pub fn hook_for_ordinal(ordinal: u16) -> (r: Option<Hook>)
    ensures
        r == hook_numbered(ordinal),
{
    match ordinal {
        4 => Some(Hook::Connect),
        46 => Some(Hook::WsaConnect),
        31 => Some(Hook::GetAddrInfoW),
        192 => Some(Hook::GetAddrInfo),
        20 => Some(Hook::SendTo),
        67 => Some(Hook::WsaIoctl),
        72 => Some(Hook::WsaSend),
        73 => Some(Hook::WsaSendTo),
        19 => Some(Hook::Send),
        3 => Some(Hook::CloseSocket),
        _ => None,
    }
}

/// How a function is looked up at run time.
pub enum Lookup<'a> {
    /// By name.
    Named(&'a str),
    /// By ordinal, in `ws2_32.dll` or in another library.
    Numbered { ordinal: u16, in_winsock: bool },
    /// By something that is no text.
    Other,
}

pub enum LookupModel {
    Named(Seq<char>),
    Numbered(u16, bool),
    Other,
}

impl<'a> View for Lookup<'a> {
    type V = LookupModel;

    open spec fn view(&self) -> LookupModel {
        match self {
            Lookup::Named(name) => LookupModel::Named(name@),
            Lookup::Numbered { ordinal, in_winsock } => LookupModel::Numbered(*ordinal, *in_winsock),
            Lookup::Other => LookupModel::Other,
        }
    }
}

/// The replacement that a run-time lookup gives.
pub open spec fn lookup_plan(lookup: LookupModel) -> Option<Hook> {
    match lookup {
        LookupModel::Named(name) => hook_named(name),
        LookupModel::Numbered(ordinal, in_winsock) => if in_winsock {
            hook_numbered(ordinal)
        } else {
            None
        },
        LookupModel::Other => None,
    }
}

/// The replacement that a run-time lookup gives; `None` where it goes on to the system.
pub fn plan_getprocaddress(lookup: Lookup) -> (r: Option<Hook>)
    ensures
        r == lookup_plan(lookup@),
{
    match lookup {
        Lookup::Named(name) => hook_for_name(name),
        Lookup::Numbered { ordinal, in_winsock } => if in_winsock {
            hook_for_ordinal(ordinal)
        } else {
            None
        },
        Lookup::Other => None,
    }
}

/// The control code that asks a socket for the address of an extension function.
pub const SIO_GET_EXTENSION_FUNCTION_POINTER: u32 = 0xC800_0006;

/// The identifier of `ConnectEx`, as it is laid out in memory.
pub open spec fn connectex_id() -> Seq<u8> {
    seq![
        0xb9u8,
        0x07,
        0xa2,
        0x25,
        0xf3,
        0xdd,
        0x60,
        0x46,
        0x8e,
        0xe9,
        0x76,
        0xe5,
        0x8c,
        0x74,
        0x06,
        0x3e,
    ]
}

/// A call of `WSAIoctl` asks for `ConnectEx`: `input` is what it brings along, `room` how many bytes
/// it has for the answer, `pointer` how many bytes an address takes.
pub open spec fn asks_for_connectex(code: u32, input: Option<Seq<u8>>, room: Option<u32>, pointer: u32) -> bool {
    &&& code == SIO_GET_EXTENSION_FUNCTION_POINTER
    &&& input is Some && input->0.len() >= 16
    &&& room is Some && room->0 >= pointer
    &&& input->0.subrange(0, 16) == connectex_id()
}

pub open spec fn slice_model(b: Option<&[u8]>) -> Option<Seq<u8>> {
    match b {
        Some(b) => Some(b@),
        None => None,
    }
}

/// Whether a call of `WSAIoctl` asks for `ConnectEx`.
pub fn is_connectex_query(code: u32, input: Option<&[u8]>, room: Option<u32>, pointer: u32) -> (r: bool)
    ensures
        r == asks_for_connectex(code, slice_model(input), room, pointer),
{
    if code != SIO_GET_EXTENSION_FUNCTION_POINTER {
        return false;
    }
    match (input, room) {
        (Some(input), Some(room)) => {
            if input.len() < 16 || room < pointer {
                return false;
            }
            let id: [u8; 16] = [
                0xb9,
                0x07,
                0xa2,
                0x25,
                0xf3,
                0xdd,
                0x60,
                0x46,
                0x8e,
                0xe9,
                0x76,
                0xe5,
                0x8c,
                0x74,
                0x06,
                0x3e,
            ];
            assert(id@ =~= connectex_id());
            crate::bytes::same(vstd::slice::slice_subrange(input, 0, 16), &id)
        },
        _ => false,
    }
}

/// The address of the system's function to keep, where the slot shows `current`, the replacement is
/// at `ours` and `known` was kept before: a slot that shows the replacement teaches nothing.
pub open spec fn kept_original(current: usize, ours: usize, known: usize) -> usize {
    if current != 0 && current != ours {
        current
    } else {
        known
    }
}

/// The address of the system's `ConnectEx` to keep.
pub fn keep_original(current: usize, ours: usize, known: usize) -> (r: usize)
    ensures
        r == kept_original(current, ours, known),
{
    if current != 0 && current != ours {
        current
    } else {
        known
    }
}

/// What hooking an import does: whether the slot is to be written, and the address of the system's
/// function to keep, which is that of the first slot ever seen.
pub open spec fn import_hooked(current: usize, ours: usize, known: usize) -> (bool, usize) {
    if current == ours {
        (false, known)
    } else if known == 0 {
        (true, current)
    } else {
        (true, known)
    }
}

/// What hooking an import does: whether the slot is to be written, and the address of the system's
/// function to keep.
pub fn hook_import(current: usize, ours: usize, known: usize) -> (r: (bool, usize))
    ensures
        r == import_hooked(current, ours, known),
{
    if current == ours {
        (false, known)
    } else if known == 0 {
        (true, current)
    } else {
        (true, known)
    }
}

// Laws.

/// A function that is replaced in an import table is replaced in the same way when it is looked up
/// by ordinal.
pub proof fn ordinals_agree_with_the_imports(i: int)
    requires
        0 <= i < import_hooks().len(),
        import_hooks()[i].ordinal != 0,
    ensures
        hook_numbered(import_hooks()[i].ordinal) == Some(import_hooks()[i].hook),
{
}

/// A function that is replaced in an import table is replaced in the same way when it is looked up
/// by name, but for the lookup itself.
pub proof fn names_agree_with_the_imports(i: int)
    requires
        0 <= i < import_hooks().len(),
        import_hooks()[i].hook != Hook::GetProcAddress,
    ensures
        hook_named(import_hooks()[i].func_name) == Some(import_hooks()[i].hook),
{
    reveal_strlit("connect");
    reveal_strlit("WSAConnect");
    reveal_strlit("GetAddrInfoW");
    reveal_strlit("getaddrinfo");
    reveal_strlit("sendto");
    reveal_strlit("WSASendTo");
    reveal_strlit("LoadLibraryW");
    reveal_strlit("LoadLibraryA");
    reveal_strlit("LoadLibraryExW");
    reveal_strlit("LoadLibraryExA");
    reveal_strlit("CreateProcessW");
    reveal_strlit("CreateProcessA");
    reveal_strlit("WSAIoctl");
    reveal_strlit("ConnectEx");
    reveal_strlit("WSASend");
    reveal_strlit("send");
    reveal_strlit("closesocket");
    // The names differ in their length, in their first letter or in their last one.
    let name = import_hooks()[i].func_name;
    let first = name[0];
    let last = name[name.len() - 1];
}

/// Hooking an import twice is as good as hooking it once: the replacement is never taken for the
/// system's function.
pub proof fn hooking_again_changes_nothing(current: usize, ours: usize, known: usize)
    ensures
        import_hooked(ours, ours, import_hooked(current, ours, known).1) == (
            false,
            import_hooked(current, ours, known).1,
        ),
        known != ours ==> import_hooked(current, ours, known).1 != ours,
{
}

/// What the system calls the function that is replaced.
pub open spec fn system_name(hook: Hook) -> Seq<char> {
    match hook {
        Hook::Connect => "connect"@,
        Hook::WsaConnect => "WSAConnect"@,
        Hook::GetAddrInfoW => "GetAddrInfoW"@,
        Hook::GetAddrInfo => "getaddrinfo"@,
        Hook::SendTo => "sendto"@,
        Hook::WsaSendTo => "WSASendTo"@,
        Hook::WsaIoctl => "WSAIoctl"@,
        Hook::ConnectEx => "ConnectEx"@,
        Hook::WsaSend => "WSASend"@,
        Hook::Send => "send"@,
        Hook::CloseSocket => "closesocket"@,
        Hook::GetProcAddress => "GetProcAddress"@,
        Hook::LoadLibraryW => "LoadLibraryW"@,
        Hook::LoadLibraryA => "LoadLibraryA"@,
        Hook::LoadLibraryExW => "LoadLibraryExW"@,
        Hook::LoadLibraryExA => "LoadLibraryExA"@,
        Hook::CreateProcessW => "CreateProcessW"@,
        Hook::CreateProcessA => "CreateProcessA"@,
    }
}

/// The ordinal of the function in the library of sockets; zero where it is not one of its functions that are
/// imported by ordinal.
pub open spec fn system_ordinal(hook: Hook) -> u16 {
    match hook {
        Hook::Connect => 4,
        Hook::WsaConnect => 46,
        Hook::GetAddrInfoW => 31,
        Hook::GetAddrInfo => 192,
        Hook::SendTo => 20,
        Hook::WsaSendTo => 73,
        Hook::WsaIoctl => 67,
        Hook::WsaSend => 72,
        Hook::Send => 19,
        Hook::CloseSocket => 3,
        _ => 0,
    }
}

/// No two of the functions have the same name.
proof fn lemma_names_differ(a: Hook, b: Hook)
    requires
        system_name(a) == system_name(b),
    ensures
        a == b,
{
    reveal_strlit("connect");
    reveal_strlit("WSAConnect");
    reveal_strlit("GetAddrInfoW");
    reveal_strlit("getaddrinfo");
    reveal_strlit("sendto");
    reveal_strlit("WSASendTo");
    reveal_strlit("WSAIoctl");
    reveal_strlit("ConnectEx");
    reveal_strlit("WSASend");
    reveal_strlit("send");
    reveal_strlit("closesocket");
    reveal_strlit("GetProcAddress");
    reveal_strlit("LoadLibraryW");
    reveal_strlit("LoadLibraryA");
    reveal_strlit("LoadLibraryExW");
    reveal_strlit("LoadLibraryExA");
    reveal_strlit("CreateProcessW");
    reveal_strlit("CreateProcessA");
    let s = system_name(a);
    let first = s[0];
    let last = s[s.len() - 1];
    let second = s[1];
    let fourth = s[3];
    let next_to_last = s[s.len() - 2];
    let t = system_name(b);
    assert(t[0] == first && t[t.len() - 1] == last && t[1] == second && t[3] == fourth && t[t.len() - 2] == next_to_last);
}

/// A run-time lookup by name gives the replacement of the function of that name, but for that of the lookup
/// itself; any other name goes on to the system.
pub proof fn lookups_by_name(name: Seq<char>, hook: Hook)
    ensures
        hook != Hook::GetProcAddress ==> lookup_plan(LookupModel::Named(system_name(hook))) == Some(hook),
        lookup_plan(LookupModel::Named(name)) is Some ==> name == system_name(lookup_plan(LookupModel::Named(name))->0)
            && lookup_plan(LookupModel::Named(name))->0 != Hook::GetProcAddress,
{
    let s = system_name(hook);
    match hook_named(s) {
        Some(found) => {
            lemma_names_differ(found, hook);
        },
        None => {},
    }
}

/// A run-time lookup by ordinal gives the replacement of the function with that ordinal in the library of
/// sockets, and goes on to the system in any other library and for anything else.
pub proof fn lookups_by_ordinal(ordinal: u16, hook: Hook)
    ensures
        system_ordinal(hook) != 0 ==> lookup_plan(LookupModel::Numbered(system_ordinal(hook), true)) == Some(hook),
        lookup_plan(LookupModel::Numbered(ordinal, true)) is Some ==> ordinal == system_ordinal(
            lookup_plan(LookupModel::Numbered(ordinal, true))->0,
        ) && ordinal != 0,
        lookup_plan(LookupModel::Numbered(ordinal, false)) is None,
        lookup_plan(LookupModel::Other) is None,
{
}

/// In the import tables every function is replaced but `ConnectEx`, which no library exports: once, under its
/// name and its ordinal, and in the library of sockets where it has an ordinal and in `kernel32.dll` otherwise.
pub proof fn imports_that_are_replaced(hook: Hook, i: int) -> (k: int)
    ensures
        hook != Hook::ConnectEx ==> 0 <= k < import_hooks().len() && import_hooks()[k].hook == hook,
        0 <= i < import_hooks().len() ==> {
            let d = import_hooks()[i];
            &&& d.hook != Hook::ConnectEx
            &&& d.func_name == system_name(d.hook)
            &&& d.ordinal == system_ordinal(d.hook)
            &&& d.dll_name == (if d.ordinal != 0 {
                "ws2_32.dll"@
            } else {
                "kernel32.dll"@
            })
            &&& d.hook == hook ==> i == k
        },
{
    match hook {
        Hook::Connect => 0int,
        Hook::WsaConnect => 1int,
        Hook::GetAddrInfoW => 2int,
        Hook::GetAddrInfo => 3int,
        Hook::SendTo => 4int,
        Hook::WsaSendTo => 5int,
        Hook::WsaIoctl => 6int,
        Hook::WsaSend => 7int,
        Hook::Send => 8int,
        Hook::CloseSocket => 9int,
        Hook::GetProcAddress => 10int,
        Hook::LoadLibraryW => 11int,
        Hook::LoadLibraryA => 12int,
        Hook::LoadLibraryExW => 13int,
        Hook::LoadLibraryExA => 14int,
        Hook::CreateProcessW => 15int,
        Hook::CreateProcessA => 16int,
        Hook::ConnectEx => 0int,
    }
}

/// `ConnectEx` is asked for with its control code and its identifier, where there is room for an address.
pub proof fn connectex_is_asked_for(code: u32, input: Seq<u8>, room: u32, pointer: u32)
    ensures
        asks_for_connectex(code, Some(input), Some(room), pointer) <==> {
            &&& code == 0xC800_0006
            &&& room >= pointer
            &&& input.len() >= 16
            &&& input.subrange(0, 8) == seq![0xb9u8, 0x07, 0xa2, 0x25, 0xf3, 0xdd, 0x60, 0x46]
            &&& input.subrange(8, 16) == seq![0x8eu8, 0xe9, 0x76, 0xe5, 0x8c, 0x74, 0x06, 0x3e]
        },
        !asks_for_connectex(code, None, Some(room), pointer),
        !asks_for_connectex(code, Some(input), None, pointer),
{
    if input.len() >= 16 {
        let a = input.subrange(0, 8);
        let b = input.subrange(8, 16);
        assert(input.subrange(0, 16) =~= a + b);
        let x = seq![0xb9u8, 0x07, 0xa2, 0x25, 0xf3, 0xdd, 0x60, 0x46];
        let y = seq![0x8eu8, 0xe9, 0x76, 0xe5, 0x8c, 0x74, 0x06, 0x3e];
        assert(connectex_id() =~= x + y);
        if a + b == x + y {
            assert(a =~= (a + b).subrange(0, 8));
            assert(b =~= (a + b).subrange(8, 16));
            assert(x =~= (x + y).subrange(0, 8));
            assert(y =~= (x + y).subrange(8, 16));
        }
    }
}

/// What is kept as the system's function is what the slot shows or what was kept before, never the
/// replacement, and nothing is forgotten; a slot is written where it does not show the replacement yet.
pub proof fn originals_are_kept(current: usize, ours: usize, known: usize)
    ensures
        kept_original(current, ours, known) == current || kept_original(current, ours, known) == known,
        current != 0 && current != ours ==> kept_original(current, ours, known) == current,
        known != ours && ours != 0 ==> kept_original(current, ours, known) != ours,
        known != 0 ==> kept_original(current, ours, known) != 0,
        import_hooked(current, ours, known).0 <==> current != ours,
        known != 0 ==> import_hooked(current, ours, known).1 == known,
        known == 0 && current != ours ==> import_hooked(current, ours, known).1 == current,
        known == 0 && current == ours ==> import_hooked(current, ours, known).1 == 0,
{
}

} // verus!
