//! UTF-16.

use vstd::prelude::*;

verus! {

/// `char::from_u32` gives the character with the number, where there is one: every number up to
/// 0x10ffff but for the surrogates 0xd800 to 0xdfff.
pub assume_specification[ char::from_u32 ](n: u32) -> (r: Option<char>)
    ensures
        match r {
            Some(c) => c as u32 == n,
            None => n > 0x10ffff || 0xd800 <= n <= 0xdfff,
        },
;

/// The first of a pair of surrogates.
pub open spec fn high_surrogate(u: u16) -> bool {
    0xd800 <= u <= 0xdbff
}

/// The second of a pair of surrogates.
pub open spec fn low_surrogate(u: u16) -> bool {
    0xdc00 <= u <= 0xdfff
}

/// The character that a pair of surrogates stands for.
pub open spec fn pair(h: u16, l: u16) -> char {
    (0x1_0000 + (h - 0xd800) * 0x400 + (l - 0xdc00)) as char
}

/// The first character of the units and how many units it takes up. A surrogate without its other
/// half counts as U+FFFD.
pub open spec fn first(u: Seq<u16>) -> (char, int) {
    if !high_surrogate(u[0]) && !low_surrogate(u[0]) {
        (u[0] as char, 1)
    } else if high_surrogate(u[0]) && u.len() >= 2 && low_surrogate(u[1]) {
        (pair(u[0], u[1]), 2)
    } else {
        ('\u{fffd}', 1)
    }
}

/// Every surrogate has its other half.
pub open spec fn well_paired(u: Seq<u16>) -> bool
    decreases u.len(),
{
    if u.len() == 0 {
        true
    } else if !high_surrogate(u[0]) && !low_surrogate(u[0]) {
        well_paired(u.subrange(1, u.len() as int))
    } else if high_surrogate(u[0]) && u.len() >= 2 && low_surrogate(u[1]) {
        well_paired(u.subrange(2, u.len() as int))
    } else {
        false
    }
}

/// The text that the units stand for.
pub open spec fn decoded(u: Seq<u16>) -> Seq<char>
    decreases u.len(),
{
    if u.len() == 0 {
        Seq::empty()
    } else {
        let (c, n) = first(u);
        seq![c] + decoded(u.subrange(n, u.len() as int))
    }
}

fn char_of(n: u32) -> (r: char)
    requires
        n <= 0x10ffff,
        !(0xd800 <= n <= 0xdfff),
    ensures
        r as u32 == n,
{
    match char::from_u32(n) {
        Some(c) => c,
        None => {
            proof {
                assert(false);
            }
            ' '
        },
    }
}

/// The text that the units stand for, and whether every surrogate had its other half.
fn decode(u: &[u16]) -> (r: (String, bool))
    ensures
        r.0@ == decoded(u@),
        r.1 == well_paired(u@),
{
    let mut s = String::new();
    let mut paired: bool = true;
    let mut i: usize = 0;
    assert(u@.subrange(0, u@.len() as int) =~= u@);
    assert(Seq::<char>::empty() + decoded(u@) =~= decoded(u@));
    while i < u.len()
        invariant
            i <= u@.len(),
            s@ + decoded(u@.subrange(i as int, u@.len() as int)) == decoded(u@),
            (paired && well_paired(u@.subrange(i as int, u@.len() as int))) == well_paired(u@),
        decreases u@.len() - i,
    {
        let ghost left = u@.subrange(i as int, u@.len() as int);
        let ghost before = s@;
        let a: u16 = u[i];
        let mut step: usize = 1;
        if !(0xd800 <= a && a <= 0xdfff) {
            s.push(char_of(a as u32));
        } else if a <= 0xdbff && u.len() - i >= 2 && 0xdc00 <= u[i + 1] && u[i + 1] <= 0xdfff {
            let b: u16 = u[i + 1];
            let n: u32 = 0x1_0000 + (a as u32 - 0xd800) * 0x400 + (b as u32 - 0xdc00);
            s.push(char_of(n));
            step = 2;
        } else {
            s.push('\u{fffd}');
            paired = false;
        }
        proof {
            let (c, n) = first(left);
            assert(n == step);
            let rest = left.subrange(n, left.len() as int);
            assert(rest =~= u@.subrange(i + n, u@.len() as int));
            assert(s@ == before.push(c));
            assert(before.push(c) + decoded(rest) =~= before + (seq![c] + decoded(rest)));
        }
        i = i + step;
    }
    assert(s@ + Seq::<char>::empty() =~= s@);
    (s, paired)
}

/// The text that the units stand for, where every surrogate has its other half.
pub fn from_utf16(u: &[u16]) -> (r: Option<String>)
    ensures
        match r {
            Some(s) => well_paired(u@) && s@ == decoded(u@),
            None => !well_paired(u@),
        },
{
    let (s, paired) = decode(u);
    if paired {
        Some(s)
    } else {
        None
    }
}

/// The text that the units stand for, with U+FFFD for each surrogate without its other half.
pub fn from_utf16_lossy(u: &[u16]) -> (r: String)
    ensures
        r@ == decoded(u@),
{
    decode(u).0
}

/// The units before the first zero.
pub open spec fn before_zero(u: Seq<u16>) -> Seq<u16>
    decreases u.len(),
{
    if u.len() == 0 || u[0] == 0 {
        Seq::empty()
    } else {
        seq![u[0]] + before_zero(u.subrange(1, u.len() as int))
    }
}

proof fn lemma_before_zero(u: Seq<u16>, k: int)
    requires
        0 <= k <= u.len(),
        forall|j: int| 0 <= j < k ==> u[j] != 0,
        k < u.len() ==> u[k] == 0,
    ensures
        before_zero(u) == u.subrange(0, k),
    decreases k,
{
    if k > 0 {
        let t = u.subrange(1, u.len() as int);
        lemma_before_zero(t, k - 1);
        assert(u.subrange(0, k) =~= seq![u[0]] + t.subrange(0, k - 1));
    } else {
        assert(u.subrange(0, 0) =~= Seq::empty());
    }
}

/// The text of a buffer that ends with a zero, or with its last unit where it holds none.
pub fn from_buffer(u: &[u16]) -> (r: String)
    ensures
        r@ == decoded(before_zero(u@)),
{
    let mut k: usize = 0;
    while k < u.len() && u[k] != 0
        invariant
            k <= u@.len(),
            forall|j: int| 0 <= j < k ==> u@[j] != 0,
        decreases u@.len() - k,
    {
        k = k + 1;
    }
    proof {
        lemma_before_zero(u@, k as int);
    }
    from_utf16_lossy(vstd::slice::slice_subrange(u, 0, k))
}

// Laws.

/// The units of a character: one, or the two surrogates that stand for it.
pub open spec fn units_of(c: char) -> Seq<u16> {
    let n = c as int;
    if n < 0x1_0000 {
        seq![n as u16]
    } else {
        seq![(0xd800 + (n - 0x1_0000) / 0x400) as u16, (0xdc00 + (n - 0x1_0000) % 0x400) as u16]
    }
}

/// The units of a text.
pub open spec fn encoded(s: Seq<char>) -> Seq<u16>
    decreases s.len(),
{
    if s.len() == 0 {
        Seq::empty()
    } else {
        units_of(s[0]) + encoded(s.drop_first())
    }
}

proof fn lemma_first_of_units(c: char, u: Seq<u16>)
    ensures
        first(units_of(c) + u) == (c, units_of(c).len() as int),
        well_paired(units_of(c) + u) == well_paired(u),
        (units_of(c) + u).subrange(units_of(c).len() as int, (units_of(c) + u).len() as int) == u,
{
    let v = units_of(c) + u;
    let n = c as int;
    assert(v.subrange(units_of(c).len() as int, v.len() as int) =~= u);
    if n >= 0x1_0000 {
        assert(n <= 0x10ffff);
        let h = v[0];
        let l = v[1];
        assert(h == 0xd800 + (n - 0x1_0000) / 0x400);
        assert(l == 0xdc00 + (n - 0x1_0000) % 0x400);
        assert(0x1_0000 + (h - 0xd800) * 0x400 + (l - 0xdc00) == n);
    } else {
        assert(!(0xd800 <= n <= 0xdfff));
        assert(v[0] == n);
    }
}

/// The units of a text, whatever its characters, are well paired and give the text back.
pub proof fn decoding_undoes_encoding(s: Seq<char>)
    ensures
        well_paired(encoded(s)),
        decoded(encoded(s)) == s,
    decreases s.len(),
{
    if s.len() > 0 {
        let c: char = s[0];
        let t = s.drop_first();
        decoding_undoes_encoding(t);
        lemma_first_of_units(c, encoded(t));
        assert(encoded(s) == units_of(c) + encoded(t));
        assert(encoded(s).len() > 0);
        assert(decoded(encoded(s)) =~= seq![c] + t);
        assert(s =~= seq![c] + t);
    }
}

/// A surrogate without its other half spoils the units, and shows as U+FFFD where that is let pass; what
/// stands behind it is read on.
pub proof fn lone_surrogates(u: u16, rest: Seq<u16>)
    requires
        0xd800 <= u <= 0xdfff,
        u <= 0xdbff && rest.len() > 0 ==> !(0xdc00 <= rest[0] <= 0xdfff),
    ensures
        !well_paired(seq![u] + rest),
        decoded(seq![u] + rest) == seq!['\u{fffd}'] + decoded(rest),
{
    let v = seq![u] + rest;
    assert(v.subrange(1, v.len() as int) =~= rest);
    assert(rest.len() > 0 ==> v[1] == rest[0]);
}

/// The units of a buffer count up to its first zero.
pub proof fn buffer_ends_at_the_first_zero(u: Seq<u16>, rest: Seq<u16>)
    requires
        forall|i: int| 0 <= i < u.len() ==> #[trigger] u[i] != 0,
    ensures
        before_zero(u) == u,
        before_zero(u + seq![0u16] + rest) == u,
{
    let v = u + seq![0u16] + rest;
    lemma_before_zero(u, u.len() as int);
    assert(u.subrange(0, u.len() as int) =~= u);
    lemma_before_zero(v, u.len() as int);
    assert(v.subrange(0, u.len() as int) =~= u);
}

} // verus!
