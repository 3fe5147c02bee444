//! Import tables: where a module in memory keeps the addresses of the functions that it imports.

use vstd::prelude::*;
use vstd::utf8::*;
use crate::hooks::{HookDef, HookModel};
use crate::text;
use crate::utf16;

verus! {

// Reading an image. Offsets are counted from the start of the module; what lies outside of it cannot
// be read.

/// The 16-bit number at the offset.
pub open spec fn u16_at(img: Seq<u8>, at: int) -> Option<nat> {
    if 0 <= at && at + 2 <= img.len() {
        Some((img[at] + img[at + 1] * 0x100) as nat)
    } else {
        None
    }
}

/// The 32-bit number at the offset.
pub open spec fn u32_at(img: Seq<u8>, at: int) -> Option<nat> {
    if 0 <= at && at + 4 <= img.len() {
        Some((img[at] + img[at + 1] * 0x100 + img[at + 2] * 0x1_0000 + img[at + 3] * 0x100_0000) as nat)
    } else {
        None
    }
}

/// The 64-bit number at the offset.
pub open spec fn u64_at(img: Seq<u8>, at: int) -> Option<nat> {
    match (u32_at(img, at), u32_at(img, at + 4)) {
        (Some(l), Some(h)) => Some(l + h * 0x1_0000_0000),
        _ => None,
    }
}

/// The bytes from the offset up to the first zero.
pub open spec fn cstr_at(img: Seq<u8>, at: int) -> Option<Seq<u8>>
    decreases img.len() - at,
{
    if 0 <= at < img.len() {
        if img[at] == 0 {
            Some(Seq::empty())
        } else {
            match cstr_at(img, at + 1) {
                Some(s) => Some(seq![img[at]] + s),
                None => None,
            }
        }
    } else {
        None
    }
}

/// The text from the offset up to the first zero, where it is text.
pub open spec fn name_at(img: Seq<u8>, at: int) -> Option<Seq<char>> {
    match cstr_at(img, at) {
        Some(b) => if valid_utf8(b) {
            Some(decode_utf8(b))
        } else {
            None
        },
        None => None,
    }
}

fn read_u16(img: &[u8], at: u64) -> (r: Option<u16>)
    ensures
        match r {
            Some(n) => u16_at(img@, at as int) == Some(n as nat),
            None => u16_at(img@, at as int) is None,
        },
{
    let len: u64 = img.len() as u64;
    if len >= 2 && at <= len - 2 {
        let i: usize = at as usize;
        Some(img[i] as u16 + img[i + 1] as u16 * 0x100)
    } else {
        None
    }
}

fn read_u32(img: &[u8], at: u64) -> (r: Option<u32>)
    ensures
        match r {
            Some(n) => u32_at(img@, at as int) == Some(n as nat),
            None => u32_at(img@, at as int) is None,
        },
{
    let len: u64 = img.len() as u64;
    if len >= 4 && at <= len - 4 {
        let i: usize = at as usize;
        Some(
            img[i] as u32 + img[i + 1] as u32 * 0x100 + img[i + 2] as u32 * 0x1_0000 + img[i + 3] as u32
                * 0x100_0000,
        )
    } else {
        None
    }
}

fn read_u64(img: &[u8], at: u64) -> (r: Option<u64>)
    requires
        at <= 0xffff_ffff_ffff,
    ensures
        match r {
            Some(n) => u64_at(img@, at as int) == Some(n as nat),
            None => u64_at(img@, at as int) is None,
        },
{
    match (read_u32(img, at), read_u32(img, at + 4)) {
        (Some(l), Some(h)) => Some(l as u64 + h as u64 * 0x1_0000_0000),
        _ => None,
    }
}

proof fn lemma_cstr(img: Seq<u8>, at: int, k: int)
    requires
        0 <= at <= k <= img.len(),
        forall|j: int| at <= j < k ==> img[j] != 0,
        k < img.len() ==> img[k] == 0,
    ensures
        cstr_at(img, at) == (if k < img.len() {
            Some(img.subrange(at, k))
        } else {
            None::<Seq<u8>>
        }),
    decreases k - at,
{
    if at < k {
        lemma_cstr(img, at + 1, k);
        if k < img.len() {
            assert(img.subrange(at, k) =~= seq![img[at]] + img.subrange(at + 1, k));
        }
    } else if k < img.len() {
        assert(img.subrange(at, k) =~= Seq::empty());
    }
}

fn read_name(img: &[u8], at: u64) -> (r: Option<String>)
    ensures
        match r {
            Some(s) => name_at(img@, at as int) == Some(s@),
            None => name_at(img@, at as int) is None,
        },
{
    if at >= img.len() as u64 {
        return None;
    }
    let from: usize = at as usize;
    let mut k: usize = from;
    while k < img.len() && img[k] != 0
        invariant
            from <= k <= img@.len(),
            forall|j: int| from <= j < k ==> img@[j] != 0,
        decreases img@.len() - k,
    {
        k = k + 1;
    }
    proof {
        lemma_cstr(img@, from as int, k as int);
    }
    if k == img.len() {
        return None;
    }
    match text::text_of_utf8(crate::bytes::part(img, from, k)) {
        Ok(s) => Some(s),
        Err(_) => None,
    }
}

// The import table.

/// Where the import table starts, and whether the module is a 64-bit one. There is none where the
/// signatures are wrong, the kind is not known or the table is empty.
pub open spec fn imports_at(img: Seq<u8>) -> Option<(int, bool)> {
    match (u16_at(img, 0), u32_at(img, 60)) {
        (Some(mz), Some(nt)) => if mz == 0x5a4d && nt < 0x8000_0000 && u32_at(img, nt as int) == Some(0x4550nat) {
            let nt = nt as int;
            let dir = if u16_at(img, nt + 24) == Some(0x10bnat) {
                Some((nt + 128, false))
            } else if u16_at(img, nt + 24) == Some(0x20bnat) {
                Some((nt + 144, true))
            } else {
                None
            };
            match dir {
                Some((at, wide)) => match (u32_at(img, at), u32_at(img, at + 4)) {
                    (Some(start), Some(size)) => if start != 0 && size != 0 {
                        Some((start as int, wide))
                    } else {
                        None
                    },
                    _ => None,
                },
                None => None,
            }
        } else {
            None
        },
        _ => None,
    }
}

fn find_imports(img: &[u8]) -> (r: Option<(u32, bool)>)
    ensures
        match r {
            Some((start, wide)) => imports_at(img@) == Some((start as int, wide)),
            None => imports_at(img@) is None,
        },
{
    let (mz, nt) = match (read_u16(img, 0), read_u32(img, 60)) {
        (Some(mz), Some(nt)) => (mz, nt),
        _ => {
            return None;
        },
    };
    if mz != 0x5a4d || nt >= 0x8000_0000 {
        return None;
    }
    let nt: u64 = nt as u64;
    match read_u32(img, nt) {
        Some(s) => if s != 0x4550 {
            return None;
        },
        None => {
            return None;
        },
    }
    let kind: u16 = match read_u16(img, nt + 24) {
        Some(k) => k,
        None => {
            return None;
        },
    };
    let (at, wide): (u64, bool) = if kind == 0x10b {
        (nt + 128, false)
    } else if kind == 0x20b {
        (nt + 144, true)
    } else {
        return None;
    };
    match (read_u32(img, at), read_u32(img, at + 4)) {
        (Some(start), Some(size)) => if start != 0 && size != 0 {
            Some((start, wide))
        } else {
            None
        },
        _ => None,
    }
}

/// An entry of the import table: the offsets of a library's name, of the list of its functions and
/// of the slots with their addresses.
#[derive(Clone, Copy, PartialEq, Eq, Structural, Debug)]
pub struct ImportDescriptor {
    pub original_first_thunk: u32,
    pub name: u32,
    pub first_thunk: u32,
}

/// The entry at the offset; `None` behind the last one, which has no name.
pub open spec fn descriptor_at(img: Seq<u8>, at: int) -> Option<ImportDescriptor> {
    match (u32_at(img, at), u32_at(img, at + 12), u32_at(img, at + 16)) {
        (Some(o), Some(n), Some(f)) => if n != 0 {
            Some(ImportDescriptor { original_first_thunk: o as u32, name: n as u32, first_thunk: f as u32 })
        } else {
            None
        },
        _ => None,
    }
}

fn read_descriptor(img: &[u8], at: u64) -> (r: Option<ImportDescriptor>)
    requires
        at <= 0xffff_ffff_ffff,
    ensures
        r == descriptor_at(img@, at as int),
{
    match (read_u32(img, at), read_u32(img, at + 12), read_u32(img, at + 16)) {
        (Some(o), Some(n), Some(f)) => if n != 0 {
            Some(ImportDescriptor { original_first_thunk: o, name: n, first_thunk: f })
        } else {
            None
        },
        _ => None,
    }
}

/// The library is the one that exports the function: the names agree, or it is one of those through
/// which the functions of `kernel32.dll` and `ws2_32.dll` are also imported.
pub open spec fn dll_matches(imported: Seq<char>, exporter: Seq<char>) -> bool {
    ||| text::same_ignoring_case(imported, exporter)
    ||| text::same_ignoring_case(exporter, "kernel32.dll"@) && {
        ||| text::lower(imported) == "kernelbase.dll"@
        ||| text::starts_with(text::lower(imported), "api-ms-win-core-processthreads"@)
        ||| text::starts_with(text::lower(imported), "api-ms-win-core-libraryloader"@)
        ||| text::starts_with(text::lower(imported), "api-ms-win-core-synch"@)
    }
    ||| !text::same_ignoring_case(exporter, "kernel32.dll"@) && text::same_ignoring_case(exporter, "ws2_32.dll"@)
        && text::lower(imported) == "wsock32.dll"@
}

/// Whether the library is the one that exports the function.
pub fn dll_name_matches(imported: &str, exporter: &str) -> (r: bool)
    ensures
        r == dll_matches(imported@, exporter@),
{
    if text::eq_ignore_ascii_case(imported, exporter) {
        return true;
    }
    if text::eq_ignore_ascii_case(exporter, "kernel32.dll") {
        let lower = text::to_ascii_lowercase(imported);
        return text::same(&lower, "kernelbase.dll") || text::has_prefix(&lower, "api-ms-win-core-processthreads")
            || text::has_prefix(&lower, "api-ms-win-core-libraryloader") || text::has_prefix(
            &lower,
            "api-ms-win-core-synch",
        );
    }
    if text::eq_ignore_ascii_case(exporter, "ws2_32.dll") {
        let lower = text::to_ascii_lowercase(imported);
        return text::same(&lower, "wsock32.dll");
    }
    false
}

/// The size of a slot.
pub open spec fn slot_size(wide: bool) -> int {
    if wide {
        8
    } else {
        4
    }
}

/// An item of the list of functions.
pub open spec fn thunk_at(img: Seq<u8>, at: int, wide: bool) -> Option<nat> {
    if wide {
        u64_at(img, at)
    } else {
        u32_at(img, at)
    }
}

/// The item names the function: by its ordinal where the highest bit is set, and otherwise by the
/// offset of its name, which stands behind two bytes.
pub open spec fn thunk_names(img: Seq<u8>, thunk: nat, wide: bool, hook: HookModel) -> bool {
    let flag: nat = if wide {
        0x8000_0000_0000_0000
    } else {
        0x8000_0000
    };
    if thunk >= flag {
        hook.ordinal != 0 && thunk % 0x1_0000 == hook.ordinal
    } else {
        thunk != 0 && thunk < 0x4000_0000 && name_at(img, thunk as int + 2) == Some(hook.func_name)
    }
}

/// The offset of the first item of the list, from `at` on, that names the function. The list ends
/// with a zero.
pub open spec fn listed_at(img: Seq<u8>, at: int, wide: bool, hook: HookModel) -> Option<int>
    decreases img.len() - at,
{
    match thunk_at(img, at, wide) {
        Some(thunk) => if thunk == 0 {
            None
        } else if thunk_names(img, thunk, wide, hook) {
            Some(at)
        } else {
            listed_at(img, at + slot_size(wide), wide, hook)
        },
        None => None,
    }
}

/// The offset of the slot with the function's address, where the library imports the function: the
/// slots stand in the order of the list.
pub open spec fn slot_of(img: Seq<u8>, d: ImportDescriptor, wide: bool, hook: HookModel) -> Option<int> {
    let list = if d.original_first_thunk != 0 {
        d.original_first_thunk as int
    } else {
        d.first_thunk as int
    };
    match listed_at(img, list, wide, hook) {
        Some(at) => Some(d.first_thunk + (at - list)),
        None => None,
    }
}

fn names_function(img: &[u8], thunk: u64, wide: bool, hook: &HookDef) -> (r: bool)
    requires
        !wide ==> thunk <= u32::MAX,
    ensures
        r == thunk_names(img@, thunk as nat, wide, hook@),
{
    let flag: u64 = if wide {
        0x8000_0000_0000_0000
    } else {
        0x8000_0000
    };
    if thunk >= flag {
        hook.ordinal != 0 && thunk % 0x1_0000 == hook.ordinal as u64
    } else if thunk != 0 && thunk < 0x4000_0000 {
        match read_name(img, thunk + 2) {
            Some(name) => text::same(&name, hook.func_name),
            None => false,
        }
    } else {
        false
    }
}

/// The offset of the slot with the function's address, where the library imports the function.
fn find_slot(img: &[u8], d: ImportDescriptor, wide: bool, hook: &HookDef) -> (r: Option<u64>)
    requires
        img@.len() <= 0xffff_ffff,
    ensures
        match r {
            Some(at) => slot_of(img@, d, wide, hook@) == Some(at as int),
            None => slot_of(img@, d, wide, hook@) is None,
        },
{
    let list: u64 = if d.original_first_thunk != 0 {
        d.original_first_thunk as u64
    } else {
        d.first_thunk as u64
    };
    let size: u64 = if wide {
        8
    } else {
        4
    };
    let mut at: u64 = list;
    while at < img.len() as u64
        invariant
            img@.len() <= 0xffff_ffff,
            size == slot_size(wide),
            list <= at <= 0x1_0000_0010,
            list == (if d.original_first_thunk != 0 {
                d.original_first_thunk as int
            } else {
                d.first_thunk as int
            }),
            listed_at(img@, list as int, wide, hook@) == listed_at(img@, at as int, wide, hook@),
        decreases 0x1_0000_0010 - at,
    {
        let thunk: Option<u64> = if wide {
            read_u64(img, at)
        } else {
            match read_u32(img, at) {
                Some(n) => Some(n as u64),
                None => None,
            }
        };
        match thunk {
            Some(thunk) => {
                if thunk == 0 {
                    return None;
                }
                if names_function(img, thunk, wide, hook) {
                    return Some(d.first_thunk as u64 + (at - list));
                }
            },
            None => {
                return None;
            },
        }
        at = at + size;
    }
    assert(thunk_at(img@, at as int, wide) is None);
    None
}

/// How far the walk through an import table has come: the entry, and the hook to try on it next.
#[derive(Clone, Copy, PartialEq, Eq, Structural, Debug)]
pub struct ImportCursor {
    pub entry: u64,
    pub hook: usize,
}

/// A slot to be redirected: its offset, and the number of the hook.
#[derive(Clone, Copy, PartialEq, Eq, Structural, Debug)]
pub struct ImportPatch {
    pub slot: u64,
    pub hook: usize,
}

/// The slot that an entry holds for a hook, where its library exports the function.
pub open spec fn entry_slot(img: Seq<u8>, d: ImportDescriptor, wide: bool, hook: HookModel) -> Option<int> {
    match name_at(img, d.name as int) {
        Some(dll) => if dll_matches(dll, hook.dll_name) {
            slot_of(img, d, wide, hook)
        } else {
            None
        },
        None => None,
    }
}

/// The first slot to be redirected from an entry and a hook on: the hooks are tried in turn on each
/// entry, and the entries in turn.
pub open spec fn first_patch(
    img: Seq<u8>,
    start: int,
    wide: bool,
    hooks: Seq<HookModel>,
    entry: int,
    hook: int,
) -> Option<(int, int, int)>
    decreases img.len() - (start + entry * 20), hooks.len() - hook,
{
    match descriptor_at(img, start + entry * 20) {
        None => None,
        Some(d) => if hook < 0 || hook >= hooks.len() {
            first_patch(img, start, wide, hooks, entry + 1, 0)
        } else {
            match entry_slot(img, d, wide, hooks[hook]) {
                Some(slot) => Some((entry, hook, slot)),
                None => first_patch(img, start, wide, hooks, entry, hook + 1),
            }
        },
    }
}

pub open spec fn hook_models(hooks: Seq<HookDef>) -> Seq<HookModel> {
    Seq::new(hooks.len(), |i: int| hooks[i]@)
}

fn find_entry_slot(img: &[u8], d: ImportDescriptor, wide: bool, hook: &HookDef) -> (r: Option<u64>)
    requires
        img@.len() <= 0xffff_ffff,
    ensures
        match r {
            Some(at) => entry_slot(img@, d, wide, hook@) == Some(at as int),
            None => entry_slot(img@, d, wide, hook@) is None,
        },
{
    match read_name(img, d.name as u64) {
        Some(dll) => if dll_name_matches(&dll, hook.dll_name) {
            find_slot(img, d, wide, hook)
        } else {
            None
        },
        None => None,
    }
}

/// The next slot of a module's import table to be redirected, and the cursor to go on with; `None`
/// where there is no further one. The image is looked at as it is now: what earlier patches did to it
/// counts.
pub fn next_import_patch(img: &[u8], hooks: &[HookDef], cursor: ImportCursor) -> (r: Option<
    (ImportPatch, ImportCursor),
>)
    requires
        img@.len() <= 0xffff_ffff,
    ensures
        match imports_at(img@) {
            Some((start, wide)) => match first_patch(
                img@,
                start,
                wide,
                hook_models(hooks@),
                cursor.entry as int,
                cursor.hook as int,
            ) {
                Some((entry, hook, slot)) => r == Some(
                    (
                        ImportPatch { slot: slot as u64, hook: hook as usize },
                        ImportCursor { entry: entry as u64, hook: (hook + 1) as usize },
                    ),
                ) && 0 <= hook < hooks@.len() && 0 <= slot <= u64::MAX && 0 <= entry <= u64::MAX,
                None => r is None,
            },
            None => r is None,
        },
{
    let (start, wide) = match find_imports(img) {
        Some(t) => t,
        None => {
            return None;
        },
    };
    match find_patch(img, start, wide, hooks, cursor.entry, cursor.hook) {
        Some((entry, hook, slot)) => Some(
            (ImportPatch { slot, hook }, ImportCursor { entry, hook: hook + 1 }),
        ),
        None => None,
    }
}

fn find_patch(img: &[u8], start: u32, wide: bool, hooks: &[HookDef], first_entry: u64, first_hook: usize) -> (r: Option<
    (u64, usize, u64),
>)
    requires
        img@.len() <= 0xffff_ffff,
    ensures
        match r {
            Some((entry, hook, slot)) => hook < hooks.len() && first_patch(
                img@,
                start as int,
                wide,
                hook_models(hooks@),
                first_entry as int,
                first_hook as int,
            ) == Some((entry as int, hook as int, slot as int)),
            None => first_patch(
                img@,
                start as int,
                wide,
                hook_models(hooks@),
                first_entry as int,
                first_hook as int,
            ) is None,
        },
{
    if first_entry > 0xffff_ffff {
        return None;
    }
    let ghost all = hook_models(hooks@);
    let ghost whole = first_patch(img@, start as int, wide, all, first_entry as int, first_hook as int);
    let mut entry: u64 = first_entry;
    let mut hook: usize = first_hook;
    while entry <= 0xffff_ffff
        invariant
            img@.len() <= 0xffff_ffff,
            all == hook_models(hooks@),
            entry <= 0x1_0000_0000,
            whole == first_patch(img@, start as int, wide, all, entry as int, hook as int),
            whole == first_patch(img@, start as int, wide, all, first_entry as int, first_hook as int),
        decreases 0x1_0000_0000 - entry, hooks@.len() - hook,
    {
        let d = match read_descriptor(img, start as u64 + entry * 20) {
            Some(d) => d,
            None => {
                return None;
            },
        };
        if hook >= hooks.len() {
            entry = entry + 1;
            hook = 0;
        } else {
            assert(all[hook as int] == hooks@[hook as int]@);
            match find_entry_slot(img, d, wide, &hooks[hook]) {
                Some(slot) => {
                    return Some((entry, hook, slot));
                },
                None => {
                    hook = hook + 1;
                },
            }
        }
    }
    assert(descriptor_at(img@, start + entry * 20) is None);
    None
}

/// The modules whose own imports are left alone: the system's and the hook library itself.
pub open spec fn core_module(name: Seq<char>) -> bool {
    let n = text::lower(name);
    ||| n == "ntdll.dll"@
    ||| n == "kernel32.dll"@
    ||| n == "kernelbase.dll"@
    ||| n == "ws2_32.dll"@
    ||| n == "shadow_hook.dll"@
    ||| n == "shadow_hook32.dll"@
    ||| n == "ghost_hook.dll"@
    ||| n == "ghost_hook32.dll"@
}

/// Whether a module's own imports are left alone. Its name stands in a buffer that ends with a zero.
pub fn is_system_core_module(name: &[u16]) -> (r: bool)
    ensures
        r == core_module(utf16::decoded(utf16::before_zero(name@))),
{
    let n = text::to_ascii_lowercase(&utf16::from_buffer(name));
    text::same(&n, "ntdll.dll") || text::same(&n, "kernel32.dll") || text::same(&n, "kernelbase.dll") || text::same(
        &n,
        "ws2_32.dll",
    ) || text::same(&n, "shadow_hook.dll") || text::same(&n, "shadow_hook32.dll") || text::same(&n, "ghost_hook.dll")
        || text::same(&n, "ghost_hook32.dll")
}

/// The module is to be hooked.
pub open spec fn hookable(base: usize, own_base: usize, name: Seq<u16>) -> bool {
    base != 0 && base != own_base && !core_module(utf16::decoded(utf16::before_zero(name)))
}

/// Whether a module is to be hooked: not one without an address, and not the hook library itself.
pub fn is_hookable(base: usize, own_base: usize, name: &[u16]) -> (r: bool)
    ensures
        r == hookable(base, own_base, name@),
{
    base != 0 && base != own_base && !is_system_core_module(name)
}

// Laws.

/// A patch redirects an import of the function that its hook replaces: the library is one that the
/// function comes from, and the list of its functions names it.
pub proof fn patches_hit_what_they_are_for(
    img: Seq<u8>,
    start: int,
    wide: bool,
    hooks: Seq<HookModel>,
    entry: int,
    hook: int,
)
    requires
        first_patch(img, start, wide, hooks, entry, hook) is Some,
        entry >= 0,
        hook >= 0,
    ensures
        ({
            let (e, h, slot) = first_patch(img, start, wide, hooks, entry, hook)->0;
            &&& e >= entry
            &&& 0 <= h < hooks.len()
            &&& descriptor_at(img, start + e * 20) is Some
            &&& name_at(img, descriptor_at(img, start + e * 20)->0.name as int) is Some
            &&& dll_matches(
                name_at(img, descriptor_at(img, start + e * 20)->0.name as int)->0,
                hooks[h].dll_name,
            )
            &&& slot_of(img, descriptor_at(img, start + e * 20)->0, wide, hooks[h]) == Some(slot)
        }),
    decreases img.len() - (start + entry * 20), hooks.len() - hook,
{
    let d = descriptor_at(img, start + entry * 20)->0;
    if hook >= hooks.len() {
        patches_hit_what_they_are_for(img, start, wide, hooks, entry + 1, 0);
    } else if entry_slot(img, d, wide, hooks[hook]) is None {
        patches_hit_what_they_are_for(img, start, wide, hooks, entry, hook + 1);
    }
}

/// Nothing that comes before the patch was to be redirected: no import is passed over.
pub proof fn no_import_is_passed_over(
    img: Seq<u8>,
    start: int,
    wide: bool,
    hooks: Seq<HookModel>,
    entry: int,
    hook: int,
    e: int,
    h: int,
)
    requires
        0 <= entry,
        0 <= hook,
        0 <= h < hooks.len(),
        e > entry || (e == entry && h >= hook),
        forall|k: int| entry <= k <= e ==> descriptor_at(img, #[trigger] (start + k * 20)) is Some,
        entry_slot(img, descriptor_at(img, start + e * 20)->0, wide, hooks[h]) is Some,
    ensures
        first_patch(img, start, wide, hooks, entry, hook) is Some,
        ({
            let (e1, h1, _) = first_patch(img, start, wide, hooks, entry, hook)->0;
            e1 < e || (e1 == e && h1 <= h)
        }),
    decreases img.len() - (start + entry * 20), hooks.len() - hook,
{
    assert(descriptor_at(img, start + entry * 20) is Some);
    let d = descriptor_at(img, start + entry * 20)->0;
    if hook >= hooks.len() {
        no_import_is_passed_over(img, start, wide, hooks, entry + 1, 0, e, h);
    } else if entry_slot(img, d, wide, hooks[hook]) is None {
        no_import_is_passed_over(img, start, wide, hooks, entry, hook + 1, e, h);
    }
}

/// Numbers stand in memory with the least significant byte first, and are read where all their bytes are there.
pub proof fn numbers_in_memory(img: Seq<u8>, at: int)
    requires
        at >= 0,
    ensures
        u16_at(img, at) is Some <==> at + 2 <= img.len(),
        u32_at(img, at) is Some <==> at + 4 <= img.len(),
        u64_at(img, at) is Some <==> at + 8 <= img.len(),
        at + 2 <= img.len() ==> u16_at(img, at)->0 == img[at] + 256 * img[at + 1],
        at + 4 <= img.len() ==> u32_at(img, at)->0 == img[at] + 256 * (img[at + 1] + 256 * (img[at + 2] + 256 * img[at
            + 3])),
        at + 8 <= img.len() ==> u64_at(img, at)->0 == u32_at(img, at)->0 + 0x1_0000_0000 * u32_at(img, at + 4)->0,
{
}

/// The bytes of the text stand at the offset, with a zero behind them and none among them.
pub open spec fn text_stands_at(img: Seq<u8>, at: int, s: Seq<char>) -> bool {
    let b = encode_utf8(s);
    &&& 0 <= at
    &&& at + b.len() < img.len()
    &&& img.subrange(at, at + b.len()) == b
    &&& img[at + b.len()] == 0
    &&& forall|i: int| 0 <= i < b.len() ==> #[trigger] b[i] != 0
}

/// A name is read where its bytes stand with a zero behind them, and nowhere else.
pub proof fn names_in_memory(img: Seq<u8>, at: int, s: Seq<char>)
    ensures
        name_at(img, at) == Some(s) <==> text_stands_at(img, at, s),
{
    let b = encode_utf8(s);
    encode_utf8_valid_utf8(s);
    encode_utf8_decode_utf8(s);
    if text_stands_at(img, at, s) {
        let k = at + b.len();
        assert forall|j: int| at <= j < k implies img[j] != 0 by {
            assert(img.subrange(at, k)[j - at] == img[j]);
        }
        lemma_cstr(img, at, k);
    }
    if name_at(img, at) == Some(s) {
        let k = lemma_zero_behind(img, at);
        lemma_cstr(img, at, k);
        let c = img.subrange(at, k);
        decode_utf8_encode_utf8(c);
        assert(b =~= c);
        assert forall|i: int| 0 <= i < b.len() implies #[trigger] b[i] != 0 by {
            assert(c[i] == img[at + i]);
        }
    }
}

proof fn lemma_zero_behind(img: Seq<u8>, at: int) -> (k: int)
    requires
        cstr_at(img, at) is Some,
    ensures
        0 <= at <= k < img.len(),
        forall|j: int| at <= j < k ==> img[j] != 0,
        img[k] == 0,
    decreases img.len() - at,
{
    if img[at] == 0 {
        at
    } else {
        lemma_zero_behind(img, at + 1)
    }
}

/// An item of the list names a function by name, in a 32-bit module as in a 64-bit one, where it is an offset
/// below 0x40000000 other than zero and the name stands two bytes behind it.
pub proof fn functions_are_named_by_name(img: Seq<u8>, thunk: nat, wide: bool, hook: HookModel)
    requires
        thunk < 0x8000_0000,
    ensures
        thunk_names(img, thunk, wide, hook) <==> 0 < thunk < 0x4000_0000 && text_stands_at(
            img,
            thunk as int + 2,
            hook.func_name,
        ),
        thunk_names(img, thunk, true, hook) == thunk_names(img, thunk, false, hook),
{
    names_in_memory(img, thunk as int + 2, hook.func_name);
}

/// An item with its highest bit set names a function by ordinal, in its lowest 16 bits, whatever the bits
/// between them are; a function without an ordinal is not named so. A 64-bit item in between names nothing.
pub proof fn functions_are_named_by_ordinal(img: Seq<u8>, low: nat, mid: nat, hook: HookModel)
    requires
        low < 0x1_0000,
    ensures
        mid < 0x8000 ==> thunk_names(img, 0x8000_0000 + mid * 0x1_0000 + low, false, hook) == (hook.ordinal != 0
            && hook.ordinal == low),
        mid < 0x8000_0000_0000 ==> thunk_names(img, 0x8000_0000_0000_0000 + mid * 0x1_0000 + low, true, hook) == (
        hook.ordinal != 0 && hook.ordinal == low),
        mid < 0x8000_0000_0000 && mid >= 0x4000 ==> !thunk_names(img, mid * 0x1_0000 + low, true, hook),
{
    assert((0x8000_0000 + mid * 0x1_0000 + low) % 0x1_0000 == low);
    assert((0x8000_0000_0000_0000 + mid * 0x1_0000 + low) % 0x1_0000 == low);
}

/// The item number `i` of the list at `list`.
pub open spec fn item(img: Seq<u8>, list: int, i: int, wide: bool) -> Option<nat> {
    if wide {
        u64_at(img, list + i * 8)
    } else {
        u32_at(img, list + i * 4)
    }
}

/// The list of functions of an entry, which may be that of the slots themselves.
pub open spec fn list_start(d: ImportDescriptor) -> int {
    if d.original_first_thunk != 0 {
        d.original_first_thunk as int
    } else {
        d.first_thunk as int
    }
}

/// The items of the list up to number `j` are there, and none of them ends it.
pub open spec fn list_reaches(img: Seq<u8>, list: int, from: int, j: int, wide: bool) -> bool {
    forall|i: int| from <= i <= j ==> (#[trigger] item(img, list, i, wide)) is Some && item(img, list, i, wide)->0 != 0
}

proof fn lemma_listed(img: Seq<u8>, list: int, from: int, j: int, wide: bool, hook: HookModel) -> (k: int)
    requires
        0 <= from <= j,
        list_reaches(img, list, from, j, wide),
        thunk_names(img, item(img, list, j, wide)->0, wide, hook),
    ensures
        from <= k <= j,
        wide ==> listed_at(img, list + from * 8, wide, hook) == Some(list + k * 8),
        !wide ==> listed_at(img, list + from * 4, wide, hook) == Some(list + k * 4),
        thunk_names(img, item(img, list, k, wide)->0, wide, hook),
        forall|i: int| from <= i < k ==> !thunk_names(img, (#[trigger] item(img, list, i, wide))->0, wide, hook),
    decreases j - from,
{
    let t = item(img, list, from, wide);
    assert(t is Some && t->0 != 0);
    if thunk_names(img, t->0, wide, hook) {
        from
    } else {
        lemma_listed(img, list, from + 1, j, wide, hook)
    }
}

/// A function that an item of the list names, with no zero before it, has a slot: that of the first such item,
/// with four bytes to a slot in a 32-bit module and eight in a 64-bit one.
pub proof fn listed_functions_have_a_slot(
    img: Seq<u8>,
    d: ImportDescriptor,
    wide: bool,
    hook: HookModel,
    j: int,
) -> (k: int)
    requires
        j >= 0,
        list_reaches(img, list_start(d), 0, j, wide),
        thunk_names(img, item(img, list_start(d), j, wide)->0, wide, hook),
    ensures
        0 <= k <= j,
        wide ==> slot_of(img, d, wide, hook) == Some(d.first_thunk + k * 8),
        !wide ==> slot_of(img, d, wide, hook) == Some(d.first_thunk + k * 4),
        thunk_names(img, item(img, list_start(d), k, wide)->0, wide, hook),
        forall|i: int|
            0 <= i < k ==> !thunk_names(img, (#[trigger] item(img, list_start(d), i, wide))->0, wide, hook),
{
    lemma_listed(img, list_start(d), 0, j, wide, hook)
}

proof fn lemma_listed_back(img: Seq<u8>, list: int, from: int, wide: bool, hook: HookModel) -> (k: int)
    requires
        from >= 0,
        wide ==> listed_at(img, list + from * 8, wide, hook) is Some,
        !wide ==> listed_at(img, list + from * 4, wide, hook) is Some,
    ensures
        k >= from,
        wide ==> listed_at(img, list + from * 8, wide, hook) == Some(list + k * 8),
        !wide ==> listed_at(img, list + from * 4, wide, hook) == Some(list + k * 4),
        thunk_names(img, item(img, list, k, wide)->0, wide, hook),
        list_reaches(img, list, from, k, wide),
    decreases img.len() - list - from * 4,
{
    let t = item(img, list, from, wide);
    if thunk_names(img, t->0, wide, hook) {
        from
    } else {
        lemma_listed_back(img, list, from + 1, wide, hook)
    }
}

/// A slot belongs to an item of the list that names the function, with no zero before it.
pub proof fn slots_belong_to_listed_functions(img: Seq<u8>, d: ImportDescriptor, wide: bool, hook: HookModel) -> (k: int)
    requires
        slot_of(img, d, wide, hook) is Some,
    ensures
        k >= 0,
        wide ==> slot_of(img, d, wide, hook) == Some(d.first_thunk + k * 8),
        !wide ==> slot_of(img, d, wide, hook) == Some(d.first_thunk + k * 4),
        thunk_names(img, item(img, list_start(d), k, wide)->0, wide, hook),
        list_reaches(img, list_start(d), 0, k, wide),
{
    lemma_listed_back(img, list_start(d), 0, wide, hook)
}

/// The entries of an import table: the list stands at their start, the library's name behind 12 bytes and the
/// slots behind 16; an entry without a name is none.
pub proof fn entries_in_memory(img: Seq<u8>, at: int)
    requires
        at >= 0,
    ensures
        match descriptor_at(img, at) {
            Some(d) => at + 20 <= img.len() && d.name != 0 && u32_at(img, at) == Some(d.original_first_thunk as nat)
                && u32_at(img, at + 12) == Some(d.name as nat) && u32_at(img, at + 16) == Some(d.first_thunk as nat),
            None => at + 20 > img.len() || u32_at(img, at + 12) == Some(0nat),
        },
{
}

/// The import table of a module is found by its headers: `MZ`, at byte 60 the place of `PE`, 24 bytes behind
/// that the kind, and 104 or 120 bytes behind the kind, for 32 and 64 bits, where the table is and how large.
pub proof fn import_tables_are_found(img: Seq<u8>)
    ensures
        match imports_at(img) {
            Some((start, wide)) => {
                let nt = u32_at(img, 60)->0 as int;
                let kind = nt + 24;
                let entry = kind + (if wide {
                    120int
                } else {
                    104int
                });
                &&& img.len() >= 64 && img[0] == 0x4d && img[1] == 0x5a
                &&& nt < 0x8000_0000 && entry + 8 <= img.len()
                &&& img[nt] == 0x50 && img[nt + 1] == 0x45 && img[nt + 2] == 0 && img[nt + 3] == 0
                &&& img[kind] == 0x0b && img[kind + 1] == (if wide {
                    2u8
                } else {
                    1u8
                })
                &&& start != 0 && u32_at(img, entry) == Some(start as nat)
                &&& u32_at(img, entry + 4) is Some && u32_at(img, entry + 4)->0 != 0
            },
            None => true,
        },
{
}

/// A module whose headers are in order has its import table found, whichever its kind.
pub proof fn import_tables_are_not_missed(img: Seq<u8>, wide: bool)
    requires
        img.len() >= 64,
        img[0] == 0x4d,
        img[1] == 0x5a,
        ({
            let nt = u32_at(img, 60)->0 as int;
            let kind = nt + 24;
            let entry = kind + (if wide {
                120int
            } else {
                104int
            });
            &&& nt < 0x8000_0000 && entry + 8 <= img.len()
            &&& img[nt] == 0x50 && img[nt + 1] == 0x45 && img[nt + 2] == 0 && img[nt + 3] == 0
            &&& img[kind] == 0x0b && img[kind + 1] == (if wide {
                2u8
            } else {
                1u8
            })
            &&& u32_at(img, entry)->0 != 0
            &&& u32_at(img, entry + 4)->0 != 0
        }),
    ensures
        imports_at(img) == Some(
            (
                u32_at(
                    img,
                    u32_at(img, 60)->0 as int + (if wide {
                        144int
                    } else {
                        128int
                    }),
                )->0 as int,
                wide,
            ),
        ),
{
}

/// The first letters of the text agree with those of the other.
pub open spec fn begins_like(s: Seq<char>, t: Seq<char>) -> bool {
    s.len() >= t.len() && text::letters_agree(s.subrange(0, t.len() as int), t)
}

/// The text holds no ASCII capital.
pub open spec fn small(s: Seq<char>) -> bool {
    forall|i: int| 0 <= i < s.len() ==> !(0x41 <= #[trigger] s[i] as int <= 0x5a)
}

proof fn lemma_small(s: Seq<char>, t: Seq<char>)
    requires
        small(t),
    ensures
        text::lower(s) == t <==> text::letters_agree(s, t),
        text::starts_with(text::lower(s), t) <==> begins_like(s, t),
{
    assert(text::lower(t) =~= t) by {
        assert forall|i: int| 0 <= i < t.len() implies text::lower(t)[i] == t[i] by {
            assert(!(0x41 <= t[i] as int <= 0x5a));
        }
    }
    text::case_is_set_aside(s, t);
    if s.len() >= t.len() {
        let p = s.subrange(0, t.len() as int);
        text::case_is_set_aside(p, t);
        assert(text::lower(p) =~= text::lower(s).subrange(0, t.len() as int));
    }
}

/// The libraries that a function may be imported through, in any case: the one that exports it; for
/// `kernel32.dll` also `kernelbase.dll` and three families of its parts; for `ws2_32.dll` also `wsock32.dll`.
pub proof fn libraries_of_a_function(imported: Seq<char>, exporter: Seq<char>)
    ensures
        dll_matches(imported, exporter) <==> {
            ||| text::letters_agree(imported, exporter)
            ||| text::letters_agree(exporter, "kernel32.dll"@) && (text::letters_agree(imported, "kernelbase.dll"@)
                || begins_like(imported, "api-ms-win-core-processthreads"@) || begins_like(
                imported,
                "api-ms-win-core-libraryloader"@,
            ) || begins_like(imported, "api-ms-win-core-synch"@))
            ||| text::letters_agree(exporter, "ws2_32.dll"@) && text::letters_agree(imported, "wsock32.dll"@)
        },
{
    reveal_strlit("kernel32.dll");
    reveal_strlit("kernelbase.dll");
    reveal_strlit("api-ms-win-core-processthreads");
    reveal_strlit("api-ms-win-core-libraryloader");
    reveal_strlit("api-ms-win-core-synch");
    reveal_strlit("ws2_32.dll");
    reveal_strlit("wsock32.dll");
    text::case_is_set_aside(imported, exporter);
    text::case_is_set_aside(exporter, "kernel32.dll"@);
    text::case_is_set_aside(exporter, "ws2_32.dll"@);
    lemma_small(imported, "kernelbase.dll"@);
    lemma_small(imported, "api-ms-win-core-processthreads"@);
    lemma_small(imported, "api-ms-win-core-libraryloader"@);
    lemma_small(imported, "api-ms-win-core-synch"@);
    lemma_small(imported, "wsock32.dll"@);
    if text::letters_agree(exporter, "ws2_32.dll"@) {
        assert(exporter.len() == 10);
        assert(!text::letters_agree(exporter, "kernel32.dll"@));
    }
}

/// Every module is hooked but one without an address, the hook library by its address, and, by name in any
/// case, four of the system and the hook library under its four names.
pub proof fn modules_that_are_left_alone(base: usize, own_base: usize, name: Seq<char>, rest: Seq<u16>)
    requires
        forall|i: int| 0 <= i < utf16::encoded(name).len() ==> #[trigger] utf16::encoded(name)[i] != 0,
    ensures
        hookable(base, own_base, utf16::encoded(name) + seq![0u16] + rest) <==> {
            &&& base != 0
            &&& base != own_base
            &&& !text::letters_agree(name, "ntdll.dll"@)
            &&& !text::letters_agree(name, "kernel32.dll"@)
            &&& !text::letters_agree(name, "kernelbase.dll"@)
            &&& !text::letters_agree(name, "ws2_32.dll"@)
            &&& !text::letters_agree(name, "shadow_hook.dll"@)
            &&& !text::letters_agree(name, "shadow_hook32.dll"@)
            &&& !text::letters_agree(name, "ghost_hook.dll"@)
            &&& !text::letters_agree(name, "ghost_hook32.dll"@)
        },
{
    reveal_strlit("ntdll.dll");
    reveal_strlit("kernel32.dll");
    reveal_strlit("kernelbase.dll");
    reveal_strlit("ws2_32.dll");
    reveal_strlit("shadow_hook.dll");
    reveal_strlit("shadow_hook32.dll");
    reveal_strlit("ghost_hook.dll");
    reveal_strlit("ghost_hook32.dll");
    utf16::buffer_ends_at_the_first_zero(utf16::encoded(name), rest);
    utf16::decoding_undoes_encoding(name);
    lemma_small(name, "ntdll.dll"@);
    lemma_small(name, "kernel32.dll"@);
    lemma_small(name, "kernelbase.dll"@);
    lemma_small(name, "ws2_32.dll"@);
    lemma_small(name, "shadow_hook.dll"@);
    lemma_small(name, "shadow_hook32.dll"@);
    lemma_small(name, "ghost_hook.dll"@);
    lemma_small(name, "ghost_hook32.dll"@);
}

/// The search ends only behind the last entry: where it finds nothing, no entry from there on that stands
/// before one without a name holds a slot for any hook.
pub proof fn search_is_complete(
    img: Seq<u8>,
    start: int,
    wide: bool,
    hooks: Seq<HookModel>,
    e: int,
    h: int,
)
    requires
        0 <= e,
        0 <= h < hooks.len(),
        forall|k: int| 0 <= k <= e ==> descriptor_at(img, #[trigger] (start + k * 20)) is Some,
        first_patch(img, start, wide, hooks, 0, 0) is None,
    ensures
        entry_slot(img, descriptor_at(img, start + e * 20)->0, wide, hooks[h]) is None,
{
    if entry_slot(img, descriptor_at(img, start + e * 20)->0, wide, hooks[h]) is Some {
        no_import_is_passed_over(img, start, wide, hooks, 0, 0, e, h);
    }
}

/// An entry holds a slot for a hook where its library is one that the function is imported through and the
/// list names the function.
pub proof fn entries_go_by_library_and_list(
    img: Seq<u8>,
    d: ImportDescriptor,
    wide: bool,
    hook: HookModel,
    dll: Seq<char>,
)
    requires
        text_stands_at(img, d.name as int, dll),
    ensures
        entry_slot(img, d, wide, hook) == (if dll_matches(dll, hook.dll_name) {
            slot_of(img, d, wide, hook)
        } else {
            None
        }),
{
    names_in_memory(img, d.name as int, dll);
}

} // verus!
