//! Shortcuts: the files that lead to other files.

use vstd::prelude::*;
use crate::text;
use crate::utf16;

verus! {

/// This many shortcuts are followed at most.
pub const MAX_LINKS: u32 = 5;

/// An extension, in lower case, is that of a shortcut.
pub open spec fn lnk(extension: Seq<char>) -> bool {
    extension == "lnk"@
}

/// Whether an extension that is in lower case is that of a shortcut.
pub fn is_lnk(extension: &str) -> (r: bool)
    ensures
        r == lnk(extension@),
{
    text::same(extension, "lnk")
}

fn extension_is_lnk(extension: &str) -> (r: bool)
    ensures
        r == lnk(text::lowercase(extension@)),
{
    is_lnk(&text::to_lowercase(extension))
}

/// Where shortcuts lead, and the arguments that came with them.
pub type Resolved<P> = Option<(P, Option<Seq<char>>)>;

pub open spec fn resolved<P>(r: Option<(P, Option<String>)>) -> Resolved<P> {
    match r {
        Some((p, Some(args))) => Some((p, Some(args@))),
        Some((p, None)) => Some((p, None)),
        None => None,
    }
}

pub open spec fn args_model(args: Option<String>) -> Option<Seq<char>> {
    match args {
        Some(a) => Some(a@),
        None => None,
    }
}

/// `r` is where the shortcut at `current` leads, when `depth` shortcuts were followed to get there
/// with the arguments `args`, and `present`, `extension` and `read` answer what is asked of the files
/// on the way. A file that is not there, one without an extension and a shortcut that cannot be read
/// lead nowhere; so does a file to start with that is no shortcut. The arguments are those of the first
/// shortcut that has any. What lies behind `MAX_LINKS` shortcuts is not looked at.
pub open spec fn leads_to<P, E: Fn(&P) -> bool, X: Fn(&P) -> Option<String>, L: Fn(&P) -> Option<(P, Option<String>)>>(
    present: E,
    extension: X,
    read: L,
    depth: nat,
    current: P,
    args: Option<Seq<char>>,
    r: Resolved<P>,
) -> bool
    decreases MAX_LINKS - depth,
{
    if depth >= MAX_LINKS {
        r == Some((current, args))
    } else {
        exists|there: bool| #[trigger] call_ensures(present, (&current,), there) && if !there {
            r is None
        } else {
            exists|ext: Option<String>| #[trigger] call_ensures(extension, (&current,), ext) && match ext {
                None => r is None,
                Some(ext) => if !lnk(text::lowercase(ext@)) {
                    if depth == 0 {
                        r is None
                    } else {
                        r == Some((current, args))
                    }
                } else {
                    exists|link: Option<(P, Option<String>)>| #[trigger]
                        call_ensures(read, (&current,), link) && match link {
                            None => r is None,
                            Some((target, link_args)) => leads_to(
                                present,
                                extension,
                                read,
                                depth + 1,
                                target,
                                if args is Some {
                                    args
                                } else {
                                    args_model(link_args)
                                },
                                r,
                            ),
                        }
                },
            }
        }
    }
}

fn follow<P, E: Fn(&P) -> bool, X: Fn(&P) -> Option<String>, L: Fn(&P) -> Option<(P, Option<String>)>>(
    current: P,
    args: Option<String>,
    depth: u32,
    present: &E,
    extension: &X,
    read: &L,
) -> (r: Option<(P, Option<String>)>)
    requires
        forall|p: &P| #[trigger] call_requires(*present, (p,)),
        forall|p: &P| #[trigger] call_requires(*extension, (p,)),
        forall|p: &P| #[trigger] call_requires(*read, (p,)),
    ensures
        leads_to(*present, *extension, *read, depth as nat, current, args_model(args), resolved(r)),
    decreases MAX_LINKS - depth,
{
    if depth >= MAX_LINKS {
        return Some((current, args));
    }
    if !present(&current) {
        return None;
    }
    match extension(&current) {
        None => None,
        Some(ext) => {
            if !extension_is_lnk(&ext) {
                if depth == 0 {
                    None
                } else {
                    Some((current, args))
                }
            } else {
                match read(&current) {
                    None => None,
                    Some((target, link_args)) => {
                        let args = if args.is_some() {
                            args
                        } else {
                            link_args
                        };
                        follow(target, args, depth + 1, present, extension, read)
                    },
                }
            }
        },
    }
}

/// Where a shortcut leads, through up to `MAX_LINKS` of them, and the arguments that come with it;
/// `None` for a file that is no shortcut. The files are asked through `present`, `extension` and
/// `read`.
pub fn resolve_shortcut<P, E: Fn(&P) -> bool, X: Fn(&P) -> Option<String>, L: Fn(&P) -> Option<(P, Option<String>)>>(
    path: P,
    present: E,
    extension: X,
    read: L,
) -> (r: Option<(P, Option<String>)>)
    requires
        forall|p: &P| #[trigger] call_requires(present, (p,)),
        forall|p: &P| #[trigger] call_requires(extension, (p,)),
        forall|p: &P| #[trigger] call_requires(read, (p,)),
    ensures
        leads_to(present, extension, read, 0, path, None, resolved(r)),
{
    follow(path, None, 0, &present, &extension, &read)
}

/// A file that has not the extension of a shortcut leads nowhere.
pub proof fn other_files_lead_nowhere<
    P,
    E: Fn(&P) -> bool,
    X: Fn(&P) -> Option<String>,
    L: Fn(&P) -> Option<(P, Option<String>)>,
>(present: E, extension: X, read: L, path: P, r: Resolved<P>)
    requires
        leads_to(present, extension, read, 0, path, None, r),
        forall|ext: Option<String>| #[trigger]
            call_ensures(extension, (&path,), ext) && ext is Some ==> !lnk(text::lowercase(ext->0@)),
    ensures
        r is None,
{
}

/// What a shortcut says, from the buffers that the system fills with its target and its arguments;
/// `None` where it names no target.
pub open spec fn link_of(target: Seq<u16>, args: Option<Seq<u16>>) -> Option<(Seq<char>, Option<Seq<char>>)> {
    let path = text::trimmed(utf16::decoded(utf16::before_zero(target)));
    if path.len() == 0 {
        None
    } else {
        Some(
            (
                path,
                match args {
                    Some(a) => {
                        let a = text::trimmed(utf16::decoded(utf16::before_zero(a)));
                        if a.len() == 0 {
                            None
                        } else {
                            Some(a)
                        }
                    },
                    None => None,
                },
            ),
        )
    }
}

pub open spec fn units_model(u: Option<&[u16]>) -> Option<Seq<u16>> {
    match u {
        Some(u) => Some(u@),
        None => None,
    }
}

/// What a shortcut says, from the buffers that the system fills with its target and its arguments.
pub fn resolve_single_lnk(target: &[u16], args: Option<&[u16]>) -> (r: Option<(String, Option<String>)>)
    ensures
        match r {
            Some((path, args_text)) => link_of(target@, units_model(args)) == Some((path@, args_model(args_text))),
            None => link_of(target@, units_model(args)) is None,
        },
{
    let path = text::trim(&utf16::from_buffer(target));
    if text::chars_of(&path).len() == 0 {
        return None;
    }
    let args_text = match args {
        Some(a) => {
            let a = text::trim(&utf16::from_buffer(a));
            if text::chars_of(&a).len() == 0 {
                None
            } else {
                Some(a)
            }
        },
        None => None,
    };
    Some((path, args_text))
}

/// A file is there and has an extension, that of a shortcut or another.
pub open spec fn file_is<P, E: Fn(&P) -> bool, X: Fn(&P) -> Option<String>>(
    present: E,
    extension: X,
    file: P,
    shortcut: bool,
) -> bool {
    &&& forall|there: bool| #[trigger] call_ensures(present, (&file,), there) ==> there
    &&& forall|ext: Option<String>| #[trigger]
        call_ensures(extension, (&file,), ext) ==> ext is Some && (text::lowercase(ext->0@) == seq!['l', 'n', 'k'])
            == shortcut
}

/// What a shortcut says is this.
pub open spec fn says<P, L: Fn(&P) -> Option<(P, Option<String>)>>(read: L, file: P, link: Resolved<P>) -> bool {
    forall|l: Option<(P, Option<String>)>| #[trigger] call_ensures(read, (&file,), l) ==> resolved(l) == link
}

proof fn lemma_chain<
    P,
    E: Fn(&P) -> bool,
    X: Fn(&P) -> Option<String>,
    L: Fn(&P) -> Option<(P, Option<String>)>,
>(present: E, extension: X, read: L, files: Seq<P>, args: Seq<Option<Seq<char>>>, d: nat, k: nat, r: Resolved<P>)
    requires
        files.len() == args.len() + 1,
        args.len() <= 5,
        d <= args.len(),
        k <= args.len(),
        forall|i: int| 0 <= i < args.len() ==> file_is(present, extension, #[trigger] files[i], true),
        forall|i: int| 0 <= i < args.len() ==> says(read, #[trigger] files[i], Some((files[i + 1], args[i]))),
        args.len() == 5 || args.len() > 0 && file_is(present, extension, files.last(), false),
        forall|i: int| 0 <= i < k ==> #[trigger] args[i] is None,
        k < args.len() ==> args[k as int] is Some,
        leads_to(
            present,
            extension,
            read,
            d,
            files[d as int],
            if k < d {
                args[k as int]
            } else {
                None
            },
            r,
        ),
    ensures
        r == Some(
            (
                files.last(),
                if k < args.len() {
                    args[k as int]
                } else {
                    None
                },
            ),
        ),
    decreases args.len() - d,
{
    reveal_strlit("lnk");
    assert("lnk"@ =~= seq!['l', 'n', 'k']);
    if d < args.len() {
        let file = files[d as int];
        let acc = if k < d {
            args[k as int]
        } else {
            None
        };
        assert(file_is(present, extension, file, true));
        assert(says(read, file, Some((files[d as int + 1], args[d as int]))));
        let link = choose|link: Option<(P, Option<String>)>| #[trigger]
            call_ensures(read, (&file,), link) && match link {
                None => r is None,
                Some((target, link_args)) => leads_to(
                    present,
                    extension,
                    read,
                    d + 1,
                    target,
                    if acc is Some {
                        acc
                    } else {
                        args_model(link_args)
                    },
                    r,
                ),
            };
        assert(call_ensures(read, (&file,), link));
        assert(resolved(link) == Some((files[d as int + 1], args[d as int])));
        if k > d {
            assert(args[d as int] is None);
        }
        lemma_chain(present, extension, read, files, args, d + 1, k, r);
    }
}

/// A chain of one to five shortcuts, each of which says the next file, leads to the file at its end, where that
/// is no shortcut, or, whatever it is, where five were followed. The arguments are those of the first shortcut
/// that has any.
pub proof fn chains_lead_to_their_end<
    P,
    E: Fn(&P) -> bool,
    X: Fn(&P) -> Option<String>,
    L: Fn(&P) -> Option<(P, Option<String>)>,
>(present: E, extension: X, read: L, files: Seq<P>, args: Seq<Option<Seq<char>>>, k: nat, r: Resolved<P>)
    requires
        files.len() == args.len() + 1,
        args.len() <= 5,
        k <= args.len(),
        forall|i: int| 0 <= i < args.len() ==> file_is(present, extension, #[trigger] files[i], true),
        forall|i: int| 0 <= i < args.len() ==> says(read, #[trigger] files[i], Some((files[i + 1], args[i]))),
        args.len() == 5 || args.len() > 0 && file_is(present, extension, files.last(), false),
        forall|i: int| 0 <= i < k ==> #[trigger] args[i] is None,
        k < args.len() ==> args[k as int] is Some,
        leads_to(present, extension, read, 0, files[0], None, r),
    ensures
        r == Some(
            (
                files.last(),
                if k < args.len() {
                    args[k as int]
                } else {
                    None
                },
            ),
        ),
{
    lemma_chain(present, extension, read, files, args, 0, k, r);
}

/// A file that is not there leads nowhere, nor does a shortcut that cannot be read, nor one whose target is not
/// there.
pub proof fn broken_shortcuts_lead_nowhere<
    P,
    E: Fn(&P) -> bool,
    X: Fn(&P) -> Option<String>,
    L: Fn(&P) -> Option<(P, Option<String>)>,
>(present: E, extension: X, read: L, path: P, target: P, args: Option<Seq<char>>, r: Resolved<P>)
    requires
        leads_to(present, extension, read, 0, path, None, r),
        (forall|there: bool| #[trigger] call_ensures(present, (&path,), there) ==> !there) || says(
            read,
            path,
            None,
        ) || says(read, path, Some((target, args))) && forall|there: bool| #[trigger]
            call_ensures(present, (&target,), there) ==> !there,
    ensures
        r is None,
{
    reveal_with_fuel(leads_to, 2);
}

/// A buffer that holds a text up to its first zero says that text without white space around it; one with
/// nothing else says no target, or no arguments.
pub proof fn buffers_say_what_they_hold(path: Seq<char>, args: Seq<char>, rest: Seq<u16>)
    requires
        forall|i: int| 0 <= i < utf16::encoded(path).len() ==> #[trigger] utf16::encoded(path)[i] != 0,
        forall|i: int| 0 <= i < utf16::encoded(args).len() ==> #[trigger] utf16::encoded(args)[i] != 0,
    ensures
        ({
            let target = utf16::encoded(path) + seq![0u16] + rest;
            let arguments = utf16::encoded(args) + seq![0u16] + rest;
            let p = text::trimmed(path);
            let a = text::trimmed(args);
            &&& p.len() == 0 ==> link_of(target, Some(arguments)) is None
            &&& p.len() > 0 && a.len() > 0 ==> link_of(target, Some(arguments)) == Some((p, Some(a)))
            &&& p.len() > 0 && a.len() == 0 ==> link_of(target, Some(arguments)) == Some((p, None::<Seq<char>>))
            &&& p.len() > 0 ==> link_of(target, None) == Some((p, None::<Seq<char>>))
        }),
{
    utf16::decoding_undoes_encoding(path);
    utf16::decoding_undoes_encoding(args);
    utf16::buffer_ends_at_the_first_zero(utf16::encoded(path), rest);
    utf16::buffer_ends_at_the_first_zero(utf16::encoded(args), rest);
}

} // verus!
