use shadow_proxy::hooks::{build_hooks, Hook, HookDef};
use shadow_proxy::iat::{
    dll_name_matches, is_hookable, is_system_core_module, next_import_patch, ImportCursor, ImportPatch,
};

fn put(img: &mut [u8], at: usize, b: &[u8]) {
    img[at..at + b.len()].copy_from_slice(b);
}

fn put32(img: &mut [u8], at: usize, n: u32) {
    put(img, at, &n.to_le_bytes());
}

/// A module of 64 bits that imports `recv` and `connect` by name and 73 by ordinal from WS2_32.dll,
/// and `LoadLibraryW` from KERNELBASE.dll, which has no list of its own.
fn image() -> Vec<u8> {
    let mut img = vec![0u8; 0x800];
    put(&mut img, 0, b"MZ");
    put32(&mut img, 60, 0x80);
    put(&mut img, 0x80, b"PE\0\0");
    put(&mut img, 0x80 + 24, &0x20bu16.to_le_bytes());
    put32(&mut img, 0x80 + 144, 0x200);
    put32(&mut img, 0x80 + 148, 60);
    put32(&mut img, 0x200, 0x300);
    put32(&mut img, 0x200 + 12, 0x500);
    put32(&mut img, 0x200 + 16, 0x400);
    put32(&mut img, 0x214, 0);
    put32(&mut img, 0x214 + 12, 0x520);
    put32(&mut img, 0x214 + 16, 0x480);
    put(&mut img, 0x300, &0x600u64.to_le_bytes());
    put(&mut img, 0x308, &0x620u64.to_le_bytes());
    put(&mut img, 0x310, &(0x8000_0000_0000_0000u64 | 73).to_le_bytes());
    put(&mut img, 0x480, &0x640u64.to_le_bytes());
    put(&mut img, 0x500, b"WS2_32.dll\0");
    put(&mut img, 0x520, b"KERNELBASE.dll\0");
    put(&mut img, 0x602, b"recv\0");
    put(&mut img, 0x622, b"connect\0");
    put(&mut img, 0x642, b"LoadLibraryW\0");
    img
}

fn walk(img: &[u8], hooks: &[HookDef]) -> Vec<ImportPatch> {
    let mut found = Vec::new();
    let mut cursor = ImportCursor { entry: 0, hook: 0 };
    while let Some((patch, next)) = next_import_patch(img, hooks, cursor) {
        found.push(patch);
        cursor = next;
    }
    found
}

#[test]
fn imports_are_found_by_name_and_by_ordinal() {
    let hooks = build_hooks();
    let found = walk(&image(), &hooks);
    let slots: Vec<(u64, Hook)> = found.iter().map(|p| (p.slot, hooks[p.hook].hook)).collect();
    assert_eq!(
        slots,
        vec![(0x408, Hook::Connect), (0x410, Hook::WsaSendTo), (0x480, Hook::LoadLibraryW)]
    );
}

#[test]
fn images_that_are_not_understood_have_no_imports() {
    let hooks = build_hooks();
    for (at, b) in [(0usize, b"ZM".to_vec()), (0x80, b"NE\0\0".to_vec()), (0x98, vec![7, 1]), (0x110, vec![0; 8])] {
        let mut img = image();
        put(&mut img, at, &b);
        assert!(walk(&img, &hooks).is_empty(), "{:x}", at);
    }
    let mut negative = image();
    put32(&mut negative, 60, 0xffff_ff80);
    assert!(walk(&negative, &hooks).is_empty());
    assert!(walk(&image()[..0x90], &hooks).is_empty());
    assert!(walk(&[], &hooks).is_empty());
    // A list that runs out of the image ends there.
    let mut cut = image();
    put32(&mut cut, 0x200, 0x7fc);
    assert_eq!(walk(&cut, &hooks).len(), 1);
}

#[test]
fn a_module_of_32_bits() {
    let mut img = vec![0u8; 0x400];
    put(&mut img, 0, b"MZ");
    put32(&mut img, 60, 0x40);
    put(&mut img, 0x40, b"PE\0\0");
    put(&mut img, 0x40 + 24, &0x10bu16.to_le_bytes());
    put32(&mut img, 0x40 + 128, 0x100);
    put32(&mut img, 0x40 + 132, 40);
    put32(&mut img, 0x100, 0x200);
    put32(&mut img, 0x10c, 0x300);
    put32(&mut img, 0x110, 0x240);
    put32(&mut img, 0x200, 0x8000_0000 | 9);
    put32(&mut img, 0x204, 0x8000_0000 | 4);
    put(&mut img, 0x300, b"wsock32.dll\0");
    let found = walk(&img, &build_hooks());
    assert_eq!(found, vec![ImportPatch { slot: 0x244, hook: 0 }]);
}

#[test]
fn libraries_and_those_that_stand_for_them() {
    assert!(dll_name_matches("WS2_32.DLL", "ws2_32.dll"));
    assert!(dll_name_matches("WSOCK32.dll", "ws2_32.dll"));
    assert!(!dll_name_matches("wsock32.dll", "kernel32.dll"));
    assert!(dll_name_matches("KernelBase.dll", "kernel32.dll"));
    assert!(dll_name_matches("api-ms-win-core-processthreads-l1-1-0.dll", "kernel32.dll"));
    assert!(dll_name_matches("API-MS-WIN-CORE-LIBRARYLOADER-l1-2-0.dll", "KERNEL32.dll"));
    assert!(dll_name_matches("api-ms-win-core-synch-l1-1-0.dll", "kernel32.dll"));
    assert!(!dll_name_matches("api-ms-win-core-file-l1-1-0.dll", "kernel32.dll"));
    assert!(!dll_name_matches("user32.dll", "ws2_32.dll"));
}

fn wide(s: &str) -> Vec<u16> {
    let mut v: Vec<u16> = s.encode_utf16().collect();
    v.push(0);
    v.extend_from_slice(&[0x41, 0x42]);
    v
}

#[test]
fn modules_that_are_left_alone() {
    for name in [
        "ntdll.dll", "KERNEL32.DLL", "KernelBase.dll", "WS2_32.dll", "shadow_hook.dll", "shadow_hook32.dll",
        "ghost_hook.dll", "Ghost_Hook32.dll",
    ] {
        assert!(is_system_core_module(&wide(name)), "{}", name);
    }
    assert!(!is_system_core_module(&wide("chrome.dll")));
    assert!(is_hookable(1, 2, &wide("chrome.dll")));
    assert!(!is_hookable(0, 2, &wide("chrome.dll")));
    assert!(!is_hookable(2, 2, &wide("chrome.dll")));
    assert!(!is_hookable(1, 2, &wide("ntdll.dll")));
}
