//! What the hook library reads from the environment of its process.

use vstd::prelude::*;
use crate::text;

verus! {

/// The first of the two that is set.
pub open spec fn setting(shadow: Option<Seq<char>>, ghost: Option<Seq<char>>) -> Option<Seq<char>> {
    if shadow is Some {
        shadow
    } else {
        ghost
    }
}

pub open spec fn model(v: Option<&str>) -> Option<Seq<char>> {
    match v {
        Some(s) => Some(s@),
        None => None,
    }
}

/// The relay's port that the settings give.
pub open spec fn port_setting(shadow: Option<Seq<char>>, ghost: Option<Seq<char>>, current: u16) -> u16 {
    match setting(shadow, ghost) {
        Some(s) => match text::unsigned(s, 65535) {
            Some(port) => port as u16,
            None => current,
        },
        None => current,
    }
}

/// The relay's port: what `SHADOW_RELAY_PORT` says, or else what `GHOST_RELAY_PORT` says; where that
/// is not a port, the port stays as it is.
pub fn relay_port(shadow: Option<&str>, ghost: Option<&str>, current: u16) -> (r: u16)
    ensures
        r == port_setting(model(shadow), model(ghost), current),
{
    let value = if shadow.is_some() {
        shadow
    } else {
        ghost
    };
    match value {
        Some(s) => match text::parse_unsigned(s, 65535) {
            Some(port) => port,
            None => current,
        },
        None => current,
    }
}

/// Whether the settings keep names from local resolvers.
pub open spec fn strict_setting(shadow: Option<Seq<char>>, ghost: Option<Seq<char>>, current: bool) -> bool {
    match setting(shadow, ghost) {
        Some(s) => current && !(s == "0"@ || text::same_ignoring_case(s, "false"@)),
        None => current,
    }
}

/// Whether names are kept from local resolvers: `0` and `false` in `SHADOW_STRICT_DNS`, or else in
/// `GHOST_STRICT_DNS`, switch that off; anything else leaves it as it is.
pub fn strict_dns(shadow: Option<&str>, ghost: Option<&str>, current: bool) -> (r: bool)
    ensures
        r == strict_setting(model(shadow), model(ghost), current),
{
    let value = if shadow.is_some() {
        shadow
    } else {
        ghost
    };
    match value {
        Some(s) => current && !(text::same(s, "0") || text::eq_ignore_ascii_case(s, "false")),
        None => current,
    }
}

/// The environment variables that would lead a process past the relay; they are removed.
pub fn proxy_variables() -> (r: [&'static str; 8])
    ensures
        Seq::new(8, |i: int| r@[i]@) == seq![
            "HTTP_PROXY"@,
            "HTTPS_PROXY"@,
            "ALL_PROXY"@,
            "NO_PROXY"@,
            "http_proxy"@,
            "https_proxy"@,
            "all_proxy"@,
            "no_proxy"@,
        ],
{
    let r = [
        "HTTP_PROXY",
        "HTTPS_PROXY",
        "ALL_PROXY",
        "NO_PROXY",
        "http_proxy",
        "https_proxy",
        "all_proxy",
        "no_proxy",
    ];
    assert(Seq::new(8, |i: int| r@[i]@) =~= seq![
        "HTTP_PROXY"@,
        "HTTPS_PROXY"@,
        "ALL_PROXY"@,
        "NO_PROXY"@,
        "http_proxy"@,
        "https_proxy"@,
        "all_proxy"@,
        "no_proxy"@,
    ]);
    r
}

// Laws.

/// The port is set by its decimal text, the first of the two settings before the second; where neither is set,
/// or the one that counts is no number of 16 bits, it stays.
pub proof fn port_is_set_by_its_text(port: u16, other: Option<Seq<char>>, current: u16)
    ensures
        port_setting(Some(text::dec(port as nat)), other, current) == port,
        port_setting(None, Some(text::dec(port as nat)), current) == port,
        port_setting(None, None, current) == current,
        port_setting(Some(text::dec(0x1_0000 + port as nat)), other, current) == current,
        port_setting(Some(Seq::empty()), other, current) == current,
{
    text::dec_is_read_back(port as nat, 65535);
    text::numbers_are_read(0x1_0000 + port as nat, 0, 65535);
    assert(Seq::new(0, |i: int| '0') + text::dec(0x1_0000 + port as nat) =~= text::dec(0x1_0000 + port as nat));
}

/// A text with anything but digits in it sets no port.
pub proof fn port_is_not_set_by_other_text(s: Seq<char>, i: int, other: Option<Seq<char>>, current: u16)
    requires
        0 <= i < s.len(),
        !(0x30 <= s[i] as u32 <= 0x39),
        !(i == 0 && s[0] == '+' && s.len() > 1),
    ensures
        port_setting(Some(s), other, current) == current,
        port_setting(None, Some(s), current) == current,
{
    text::only_numbers_are_read(s, i, 65535);
}

/// Strict mode is switched off by `0` and by `false` in any case, in the first setting or, where that is not
/// there, in the second; nothing switches it on, and nothing else switches it off.
pub proof fn strict_mode_is_switched_off(shadow: Option<Seq<char>>, ghost: Option<Seq<char>>, current: bool)
    ensures
        ({
            let off = |s: Option<Seq<char>>|
                s is Some && (s->0 == seq!['0'] || text::letters_agree(s->0, seq!['f', 'a', 'l', 's', 'e']));
            strict_setting(shadow, ghost, current) <==> current && !off(shadow) && !(shadow is None && off(ghost))
        }),
{
    reveal_strlit("0");
    reveal_strlit("false");
    assert("0"@ =~= seq!['0']);
    assert("false"@ =~= seq!['f', 'a', 'l', 's', 'e']);
    if shadow is Some {
        text::case_is_set_aside(shadow->0, "false"@);
    }
    if ghost is Some {
        text::case_is_set_aside(ghost->0, "false"@);
    }
}

/// Zeros and a plus sign before a port make no difference, and a number that is no port changes nothing.
pub proof fn ports_are_numbers(n: nat, zeros: nat, other: Option<Seq<char>>, current: u16)
    ensures
        ({
            let s = Seq::new(zeros, |i: int| '0') + text::dec(n);
            let port = if n <= 65535 {
                n as u16
            } else {
                current
            };
            &&& port_setting(Some(s), other, current) == port
            &&& port_setting(None, Some(s), current) == port
            &&& port_setting(Some(seq!['+'] + s), other, current) == port
        }),
{
    text::numbers_are_read(n, zeros, 65535);
}

} // verus!
