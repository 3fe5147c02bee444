//! Text primitives: the string operations that rules, addresses and paths are written with.
//!
//! Every operation is stated over the characters of the text (`Seq<char>`).

use vstd::prelude::*;
use vstd::utf8::*;

verus! {

/// `String::push` appends one character to the end of the string.
pub assume_specification[ String::push ](s: &mut String, c: char)
    ensures
        final(s)@ == old(s)@.push(c),
;

/// The characters of a text.
pub fn chars_of(s: &str) -> (r: Vec<char>)
    ensures
        r@ == s@,
{
    let mut r: Vec<char> = Vec::new();
    for c in it: s.chars()
        invariant
            it.seq() == s@,
            r@ == s@.take(it.index()),
    {
        proof {
            assert(s@.take(it.index() + 1) =~= s@.take(it.index()).push(s@[it.index()]));
        }
        r.push(c);
    }
    assert(s@.take(s@.len() as int) =~= s@);
    r
}

/// The text made of the characters from `from` up to, not counting, `to`.
pub fn text_of(v: &[char], from: usize, to: usize) -> (r: String)
    requires
        from <= to <= v@.len(),
    ensures
        r@ == v@.subrange(from as int, to as int),
{
    let mut r = String::new();
    let mut i: usize = from;
    while i < to
        invariant
            from <= i <= to <= v@.len(),
            r@ == v@.subrange(from as int, i as int),
        decreases to - i,
    {
        r.push(v[i]);
        proof {
            assert(v@.subrange(from as int, i + 1) =~= v@.subrange(from as int, i as int).push(v@[i as int]));
        }
        i = i + 1;
    }
    r
}

/// A copy of a text.
pub fn copy_text(s: &str) -> (r: String)
    ensures
        r@ == s@,
{
    s.to_owned()
}

/// The two texts one after the other.
pub fn join(a: &str, b: &str) -> (r: String)
    ensures
        r@ == a@ + b@,
{
    let mut r: String = a.to_owned();
    r.append(b);
    r
}

// Equality and case.

/// Whether the two texts hold the same characters.
pub fn same(a: &str, b: &str) -> (r: bool)
    ensures
        r == (a@ == b@),
{
    let x = chars_of(a);
    let y = chars_of(b);
    same_chars(&x, &y)
}

/// Whether the two character sequences are equal.
pub fn same_chars(x: &[char], y: &[char]) -> (r: bool)
    ensures
        r == (x@ == y@),
{
    if x.len() != y.len() {
        return false;
    }
    let mut i: usize = 0;
    while i < x.len()
        invariant
            i <= x@.len(),
            x@.len() == y@.len(),
            forall|j: int| 0 <= j < i ==> x@[j] == y@[j],
        decreases x@.len() - i,
    {
        if x[i] != y[i] {
            return false;
        }
        i = i + 1;
    }
    assert(x@ =~= y@);
    true
}

/// The character with an ASCII capital letter replaced by its small letter.
pub open spec fn lower_char(c: char) -> char {
    if 'A' <= c && c <= 'Z' {
        ((c as u32) + 32) as char
    } else {
        c
    }
}

/// The text with every ASCII capital letter replaced by its small letter.
pub open spec fn lower(s: Seq<char>) -> Seq<char> {
    Seq::new(s.len(), |i: int| lower_char(s[i]))
}

/// Whether the two texts are equal once ASCII case is set aside.
pub open spec fn same_ignoring_case(a: Seq<char>, b: Seq<char>) -> bool {
    lower(a) == lower(b)
}

pub fn to_lower_char(c: char) -> (r: char)
    ensures
        r == lower_char(c),
{
    if 'A' <= c && c <= 'Z' {
        ((c as u8) + 32) as char
    } else {
        c
    }
}

/// The characters of the text, in ASCII lower case.
pub fn lower_chars(s: &str) -> (r: Vec<char>)
    ensures
        r@ == lower(s@),
{
    let v = chars_of(s);
    let mut r: Vec<char> = Vec::new();
    let mut i: usize = 0;
    while i < v.len()
        invariant
            i <= v@.len(),
            v@ == s@,
            r@.len() == i,
            forall|j: int| 0 <= j < i ==> r@[j] == lower_char(v@[j]),
        decreases v@.len() - i,
    {
        r.push(to_lower_char(v[i]));
        i = i + 1;
    }
    assert(r@ =~= lower(s@));
    r
}

/// The text in ASCII lower case.
pub fn to_ascii_lowercase(s: &str) -> (r: String)
    ensures
        r@ == lower(s@),
{
    let v = lower_chars(s);
    let r = text_of(&v, 0, v.len());
    assert(v@.subrange(0, v@.len() as int) =~= v@);
    r
}

/// Whether the two texts are equal once ASCII case is set aside.
pub fn eq_ignore_ascii_case(a: &str, b: &str) -> (r: bool)
    ensures
        r == same_ignoring_case(a@, b@),
{
    let x = lower_chars(a);
    let y = lower_chars(b);
    same_chars(&x, &y)
}

// Prefixes, suffixes and substrings.

pub open spec fn starts_with(s: Seq<char>, t: Seq<char>) -> bool {
    t.len() <= s.len() && s.subrange(0, t.len() as int) == t
}

pub open spec fn ends_with(s: Seq<char>, t: Seq<char>) -> bool {
    t.len() <= s.len() && s.subrange(s.len() - t.len(), s.len() as int) == t
}

/// Whether `t` stands in `s` at position `i`.
pub open spec fn occurs_at(s: Seq<char>, t: Seq<char>, i: int) -> bool {
    0 <= i && i + t.len() <= s.len() && s.subrange(i, i + t.len()) == t
}

/// Whether `t` stands somewhere in `s`.
pub open spec fn contains(s: Seq<char>, t: Seq<char>) -> bool {
    exists|i: int| occurs_at(s, t, i)
}

/// Whether `y` stands in `x` at position `at`.
pub fn chars_occur_at(x: &[char], y: &[char], at: usize) -> (r: bool)
    requires
        at <= x@.len(),
    ensures
        r == occurs_at(x@, y@, at as int),
{
    if y.len() > x.len() - at {
        return false;
    }
    let mut i: usize = 0;
    while i < y.len()
        invariant
            i <= y@.len(),
            at + y@.len() <= x.len(),
            forall|j: int| 0 <= j < i ==> x@[at + j] == y@[j],
        decreases y@.len() - i,
    {
        if x[at + i] != y[i] {
            proof {
                assert(x@.subrange(at as int, at + y@.len())[i as int] == x@[at + i]);
            }
            return false;
        }
        i = i + 1;
    }
    assert(x@.subrange(at as int, at + y@.len()) =~= y@);
    true
}

pub fn chars_start_with(x: &[char], y: &[char]) -> (r: bool)
    ensures
        r == starts_with(x@, y@),
{
    chars_occur_at(x, y, 0)
}

pub fn chars_end_with(x: &[char], y: &[char]) -> (r: bool)
    ensures
        r == ends_with(x@, y@),
{
    if y.len() > x.len() {
        return false;
    }
    chars_occur_at(x, y, x.len() - y.len())
}

/// The text starts with `t`.
pub fn has_prefix(s: &str, t: &str) -> (r: bool)
    ensures
        r == starts_with(s@, t@),
{
    chars_start_with(&chars_of(s), &chars_of(t))
}

pub fn chars_contain(x: &[char], y: &[char]) -> (r: bool)
    ensures
        r == contains(x@, y@),
{
    let mut i: usize = 0;
    while i <= x.len()
        invariant
            i <= x@.len() + 1,
            forall|j: int| 0 <= j < i ==> !occurs_at(x@, y@, j),
        decreases x@.len() + 1 - i,
    {
        if chars_occur_at(x, y, i) {
            return true;
        }
        if i == x.len() {
            return false;
        }
        i = i + 1;
    }
    false
}

// Trimming.

/// The characters with the Unicode property `White_Space`.
pub open spec fn white_space(c: char) -> bool {
    ||| '\u{9}' <= c <= '\u{d}'
    ||| c == ' '
    ||| c == '\u{85}'
    ||| c == '\u{a0}'
    ||| c == '\u{1680}'
    ||| '\u{2000}' <= c <= '\u{200a}'
    ||| c == '\u{2028}'
    ||| c == '\u{2029}'
    ||| c == '\u{202f}'
    ||| c == '\u{205f}'
    ||| c == '\u{3000}'
}

pub fn is_white_space(c: char) -> (r: bool)
    ensures
        r == white_space(c),
{
    ('\u{9}' <= c && c <= '\u{d}') || c == ' ' || c == '\u{85}' || c == '\u{a0}' || c == '\u{1680}' || ('\u{2000}'
        <= c && c <= '\u{200a}') || c == '\u{2028}' || c == '\u{2029}' || c == '\u{202f}' || c == '\u{205f}' || c
        == '\u{3000}'
}

/// The characters of the Unicode general category `Cc`.
pub open spec fn control(c: char) -> bool {
    c <= '\u{1f}' || '\u{7f}' <= c <= '\u{9f}'
}

pub fn is_control(c: char) -> (r: bool)
    ensures
        r == control(c),
{
    c <= '\u{1f}' || ('\u{7f}' <= c && c <= '\u{9f}')
}

/// The text without the white space at its start.
pub open spec fn trim_start(s: Seq<char>) -> Seq<char>
    decreases s.len(),
{
    if s.len() > 0 && white_space(s[0]) {
        trim_start(s.drop_first())
    } else {
        s
    }
}

/// The text without the white space at its end.
pub open spec fn trim_end(s: Seq<char>) -> Seq<char>
    decreases s.len(),
{
    if s.len() > 0 && white_space(s.last()) {
        trim_end(s.drop_last())
    } else {
        s
    }
}

/// The text without the white space at its two ends.
pub open spec fn trimmed(s: Seq<char>) -> Seq<char> {
    trim_end(trim_start(s))
}

/// The text without the leading run of `c`.
pub open spec fn strip_start(s: Seq<char>, c: char) -> Seq<char>
    decreases s.len(),
{
    if s.len() > 0 && s[0] == c {
        strip_start(s.drop_first(), c)
    } else {
        s
    }
}

/// The text without the trailing run of `c`.
pub open spec fn strip_end(s: Seq<char>, c: char) -> Seq<char>
    decreases s.len(),
{
    if s.len() > 0 && s.last() == c {
        strip_end(s.drop_last(), c)
    } else {
        s
    }
}

/// The text without the runs of `c` at its two ends.
pub open spec fn stripped(s: Seq<char>, c: char) -> Seq<char> {
    strip_end(strip_start(s, c), c)
}

/// The text from the first character that is not white space to the last.
pub fn trim(s: &str) -> (r: String)
    ensures
        r@ == trimmed(s@),
{
    let v = chars_of(s);
    let mut a: usize = 0;
    assert(v@.subrange(0, v@.len() as int) =~= v@);
    while a < v.len() && is_white_space(v[a])
        invariant
            a <= v@.len(),
            trim_start(v@.subrange(a as int, v@.len() as int)) == trim_start(v@),
        decreases v@.len() - a,
    {
        proof {
            assert(v@.subrange(a as int, v@.len() as int).drop_first() =~= v@.subrange(a + 1, v@.len() as int));
        }
        a = a + 1;
    }
    let ghost t = v@.subrange(a as int, v@.len() as int);
    assert(t == trim_start(v@));
    let mut b: usize = v.len();
    while b > a && is_white_space(v[b - 1])
        invariant
            a <= b <= v@.len(),
            trim_end(v@.subrange(a as int, b as int)) == trim_end(t),
        decreases b,
    {
        proof {
            assert(v@.subrange(a as int, b as int).drop_last() =~= v@.subrange(a as int, b - 1));
        }
        b = b - 1;
    }
    text_of(&v, a, b)
}

/// The text without the leading run of `c`.
pub fn strip_start_matches(s: &str, c: char) -> (r: String)
    ensures
        r@ == strip_start(s@, c),
{
    let v = chars_of(s);
    let mut a: usize = 0;
    assert(v@.subrange(0, v@.len() as int) =~= v@);
    while a < v.len() && v[a] == c
        invariant
            a <= v@.len(),
            strip_start(v@.subrange(a as int, v@.len() as int), c) == strip_start(v@, c),
        decreases v@.len() - a,
    {
        proof {
            assert(v@.subrange(a as int, v@.len() as int).drop_first() =~= v@.subrange(a + 1, v@.len() as int));
        }
        a = a + 1;
    }
    text_of(&v, a, v.len())
}

/// The text without the runs of `c` at its two ends.
pub fn strip_matches(s: &str, c: char) -> (r: String)
    ensures
        r@ == stripped(s@, c),
{
    let t = strip_start_matches(s, c);
    let v = chars_of(&t);
    let mut b: usize = v.len();
    assert(v@.subrange(0, v@.len() as int) =~= v@);
    while b > 0 && v[b - 1] == c
        invariant
            b <= v@.len(),
            strip_end(v@.subrange(0, b as int), c) == strip_end(v@, c),
        decreases b,
    {
        proof {
            assert(v@.subrange(0, b as int).drop_last() =~= v@.subrange(0, b - 1));
        }
        b = b - 1;
    }
    text_of(&v, 0, b)
}

// Splitting.

/// What stands before the first `c`: the whole text where there is none.
pub open spec fn before(s: Seq<char>, c: char) -> Seq<char>
    decreases s.len(),
{
    if s.len() == 0 || s[0] == c {
        Seq::empty()
    } else {
        seq![s[0]] + before(s.drop_first(), c)
    }
}

/// What stands behind the first `c`, if there is one.
pub open spec fn after(s: Seq<char>, c: char) -> Option<Seq<char>>
    decreases s.len(),
{
    if s.len() == 0 {
        None
    } else if s[0] == c {
        Some(s.drop_first())
    } else {
        after(s.drop_first(), c)
    }
}

/// The first piece of the text cut at every `c`, and the second where there is one.
pub open spec fn first_two(s: Seq<char>, c: char) -> (Seq<char>, Option<Seq<char>>) {
    (
        before(s, c),
        match after(s, c) {
            Some(rest) => Some(before(rest, c)),
            None => None,
        },
    )
}

proof fn lemma_cut(s: Seq<char>, c: char, k: int)
    requires
        0 <= k <= s.len(),
        forall|j: int| 0 <= j < k ==> s[j] != c,
        k < s.len() ==> s[k] == c,
    ensures
        before(s, c) == s.subrange(0, k),
        after(s, c) == (if k < s.len() {
            Some(s.subrange(k + 1, s.len() as int))
        } else {
            None::<Seq<char>>
        }),
    decreases s.len(),
{
    if s.len() == 0 || s[0] == c {
        assert(s.subrange(0, k) =~= Seq::empty());
        if s.len() > 0 {
            assert(s.drop_first() =~= s.subrange(1, s.len() as int));
        }
    } else {
        let t = s.drop_first();
        lemma_cut(t, c, k - 1);
        assert(s.subrange(0, k) =~= seq![s[0]] + t.subrange(0, k - 1));
        if k < s.len() {
            assert(t.subrange(k, t.len() as int) =~= s.subrange(k + 1, s.len() as int));
        }
    }
}

/// The text cut at its first `c`: what stands before it and what stands behind it.
pub fn cut(s: &str, c: char) -> (r: (String, Option<String>))
    ensures
        r.0@ == before(s@, c),
        match r.1 {
            Some(rest) => after(s@, c) == Some(rest@),
            None => after(s@, c) is None,
        },
{
    let v = chars_of(s);
    let mut k: usize = 0;
    while k < v.len() && v[k] != c
        invariant
            k <= v@.len(),
            forall|j: int| 0 <= j < k ==> v@[j] != c,
        decreases v@.len() - k,
    {
        k = k + 1;
    }
    proof {
        lemma_cut(v@, c, k as int);
    }
    let head = text_of(&v, 0, k);
    if k < v.len() {
        (head, Some(text_of(&v, k + 1, v.len())))
    } else {
        (head, None)
    }
}

/// The text with every two dots, taken from the left, replaced by one hyphen.
pub open spec fn dots_to_hyphen(s: Seq<char>) -> Seq<char>
    decreases s.len(),
{
    if s.len() == 0 {
        Seq::empty()
    } else if s.len() >= 2 && s[0] == '.' && s[1] == '.' {
        seq!['-'] + dots_to_hyphen(s.subrange(2, s.len() as int))
    } else {
        seq![s[0]] + dots_to_hyphen(s.drop_first())
    }
}

/// The text with every two dots, taken from the left, replaced by one hyphen.
pub fn replace_dots(s: &str) -> (r: String)
    ensures
        r@ == dots_to_hyphen(s@),
{
    let v = chars_of(s);
    let mut r = String::new();
    let mut i: usize = 0;
    assert(v@.subrange(0, v@.len() as int) =~= v@);
    assert(Seq::<char>::empty() + dots_to_hyphen(v@) =~= dots_to_hyphen(v@));
    while i < v.len()
        invariant
            i <= v@.len(),
            v@ == s@,
            r@ + dots_to_hyphen(v@.subrange(i as int, v@.len() as int)) == dots_to_hyphen(s@),
        decreases v@.len() - i,
    {
        let ghost t = v@.subrange(i as int, v@.len() as int);
        let ghost before_r = r@;
        if v.len() - i >= 2 && v[i] == '.' && v[i + 1] == '.' {
            r.push('-');
            proof {
                assert(t.subrange(2, t.len() as int) =~= v@.subrange(i + 2, v@.len() as int));
                assert(before_r.push('-') + dots_to_hyphen(v@.subrange(i + 2, v@.len() as int)) =~= before_r + (seq!['-']
                    + dots_to_hyphen(v@.subrange(i + 2, v@.len() as int))));
            }
            i = i + 2;
        } else {
            r.push(v[i]);
            proof {
                assert(t.drop_first() =~= v@.subrange(i + 1, v@.len() as int));
                assert(before_r.push(v@[i as int]) + dots_to_hyphen(v@.subrange(i + 1, v@.len() as int)) =~= before_r + (
                seq![v@[i as int]] + dots_to_hyphen(v@.subrange(i + 1, v@.len() as int))));
            }
            i = i + 1;
        }
    }
    assert(r@ + Seq::<char>::empty() =~= r@);
    r
}

// Numbers.

pub open spec fn is_digit(c: char) -> bool {
    '0' <= c <= '9'
}

/// The decimal digit that stands for `d`.
pub open spec fn digit(d: nat) -> char {
    ('0' as nat + d) as char
}

/// The number in decimal, with no leading zero.
pub open spec fn dec(n: nat) -> Seq<char>
    decreases n,
{
    if n < 10 {
        seq![digit(n)]
    } else {
        dec(n / 10).push(digit(n % 10))
    }
}

/// The hexadecimal digit, in lower case, that stands for `d`.
pub open spec fn hex_digit(d: nat) -> char {
    if d < 10 {
        digit(d)
    } else {
        ('a' as nat + (d - 10)) as char
    }
}

/// The number in hexadecimal, with no leading zero.
pub open spec fn hex(n: nat) -> Seq<char>
    decreases n,
{
    if n < 16 {
        seq![hex_digit(n)]
    } else {
        hex(n / 16).push(hex_digit(n % 16))
    }
}

/// The byte as two hexadecimal digits.
pub open spec fn hex2(n: nat) -> Seq<char> {
    seq![hex_digit(n / 16), hex_digit(n % 16)]
}

/// The 16-bit number as four hexadecimal digits.
pub open spec fn hex4(n: nat) -> Seq<char> {
    hex2(n / 256) + hex2(n % 256)
}

pub fn digit_char(d: u8) -> (r: char)
    requires
        d < 10,
    ensures
        r == digit(d as nat),
{
    (48u8 + d) as char
}

pub fn hex_digit_char(d: u8) -> (r: char)
    requires
        d < 16,
    ensures
        r == hex_digit(d as nat),
{
    if d < 10 {
        digit_char(d)
    } else {
        (97u8 + (d - 10)) as char
    }
}

/// Appends the number in decimal.
pub fn push_dec(s: &mut String, n: u64)
    ensures
        final(s)@ == old(s)@ + dec(n as nat),
    decreases n,
{
    if n >= 10 {
        push_dec(s, n / 10);
    }
    s.push(digit_char((n % 10) as u8));
    proof {
        if n >= 10 {
            assert(s@ =~= old(s)@ + dec((n / 10) as nat).push(digit((n % 10) as nat)));
        } else {
            assert(s@ =~= old(s)@ + seq![digit(n as nat)]);
        }
    }
}

/// Appends the number in hexadecimal.
pub fn push_hex(s: &mut String, n: u16)
    ensures
        final(s)@ == old(s)@ + hex(n as nat),
    decreases n,
{
    if n >= 16 {
        push_hex(s, n / 16);
    }
    s.push(hex_digit_char((n % 16) as u8));
    proof {
        if n >= 16 {
            assert(s@ =~= old(s)@ + hex((n / 16) as nat).push(hex_digit((n % 16) as nat)));
        } else {
            assert(s@ =~= old(s)@ + seq![hex_digit(n as nat)]);
        }
    }
}

/// Appends the byte as two hexadecimal digits.
pub fn push_hex2(s: &mut String, n: u8)
    ensures
        final(s)@ == old(s)@ + hex2(n as nat),
{
    s.push(hex_digit_char(n / 16));
    s.push(hex_digit_char(n % 16));
    assert(s@ =~= old(s)@ + hex2(n as nat));
}

/// Appends the number as four hexadecimal digits.
pub fn push_hex4(s: &mut String, n: u16)
    ensures
        final(s)@ == old(s)@ + hex4(n as nat),
{
    push_hex2(s, (n / 256) as u8);
    push_hex2(s, (n % 256) as u8);
    assert(s@ =~= old(s)@ + hex4(n as nat));
}

/// The number in decimal.
pub fn dec_text(n: u64) -> (r: String)
    ensures
        r@ == dec(n as nat),
{
    let mut r = String::new();
    push_dec(&mut r, n);
    assert(r@ =~= dec(n as nat));
    r
}

/// The value of a run of decimal digits.
pub open spec fn digits_value(s: Seq<char>) -> nat
    decreases s.len(),
{
    if s.len() == 0 {
        0
    } else {
        digits_value(s.drop_last()) * 10 + (s.last() as nat - '0' as nat) as nat
    }
}

pub open spec fn all_digits(s: Seq<char>) -> bool {
    forall|i: int| 0 <= i < s.len() ==> is_digit(#[trigger] s[i])
}

/// The unsigned number that the text stands for, where it is one and is at most `max`: one or
/// more decimal digits, with at most one plus sign before them.
pub open spec fn unsigned(s: Seq<char>, max: nat) -> Option<nat> {
    let d = if s.len() > 0 && s[0] == '+' {
        s.drop_first()
    } else {
        s
    };
    if d.len() > 0 && all_digits(d) && digits_value(d) <= max {
        Some(digits_value(d))
    } else {
        None
    }
}

proof fn lemma_digits_value_grows(s: Seq<char>, k: int)
    requires
        0 <= k <= s.len(),
    ensures
        digits_value(s.subrange(0, k)) <= digits_value(s),
    decreases s.len() - k,
{
    if k == s.len() {
        assert(s.subrange(0, k) =~= s);
    } else {
        lemma_digits_value_grows(s, k + 1);
        let t = s.subrange(0, k + 1);
        assert(t.drop_last() =~= s.subrange(0, k));
    }
}

/// The unsigned number that the text stands for, where it is one and is at most `max`.
pub fn parse_unsigned(s: &str, max: u16) -> (r: Option<u16>)
    ensures
        match r {
            Some(n) => unsigned(s@, max as nat) == Some(n as nat),
            None => unsigned(s@, max as nat) is None,
        },
{
    let v = chars_of(s);
    let start: usize = if v.len() > 0 && v[0] == '+' {
        1
    } else {
        0
    };
    let ghost d = v@.subrange(start as int, v@.len() as int);
    proof {
        if start == 1 {
            assert(d =~= v@.drop_first());
        } else {
            assert(d =~= v@);
        }
    }
    if start == v.len() {
        return None;
    }
    let mut value: u32 = 0;
    let mut i: usize = start;
    assert(d.subrange(0, 0) =~= Seq::empty());
    while i < v.len()
        invariant
            start <= i <= v@.len(),
            start <= 1,
            v@ == s@,
            d == v@.subrange(start as int, v@.len() as int),
            d == (if s@.len() > 0 && s@[0] == '+' {
                s@.drop_first()
            } else {
                s@
            }),
            value <= max,
            forall|j: int| 0 <= j < i - start ==> is_digit(#[trigger] d[j]),
            value as nat == digits_value(d.subrange(0, i - start)),
        decreases v@.len() - i,
    {
        let c: char = v[i];
        if !('0' <= c && c <= '9') {
            assert(!is_digit(d[i - start]));
            return None;
        }
        let ghost t = d.subrange(0, i + 1 - start);
        proof {
            assert(t.drop_last() =~= d.subrange(0, i - start));
            assert(t.last() == c);
            lemma_digits_value_grows(d, i + 1 - start);
        }
        value = value * 10 + ((c as u8) - 48u8) as u32;
        if value > max as u32 {
            return None;
        }
        i = i + 1;
    }
    assert(d.subrange(0, d.len() as int) =~= d);
    Some(value as u16)
}

proof fn lemma_dec_digits(n: nat)
    ensures
        dec(n).len() > 0,
        all_digits(dec(n)),
        digits_value(dec(n)) == n,
    decreases n,
{
    if n < 10 {
        assert(dec(n).drop_last() =~= Seq::empty());
        reveal_with_fuel(digits_value, 2);
    } else {
        lemma_dec_digits(n / 10);
        assert(dec(n).drop_last() =~= dec(n / 10));
    }
}

/// The decimal text of a number stands for that number.
pub proof fn dec_is_read_back(n: nat, max: nat)
    requires
        n <= max,
    ensures
        dec(n).len() > 0,
        all_digits(dec(n)),
        unsigned(dec(n), max) == Some(n),
{
    lemma_dec_digits(n);
    assert(is_digit(dec(n)[0]));
}

/// A text without `c`, then `c`, then any text, is cut at that `c`.
pub proof fn cut_of_joined(s: Seq<char>, c: char, t: Seq<char>)
    requires
        forall|i: int| 0 <= i < s.len() ==> #[trigger] s[i] != c,
    ensures
        before(s + seq![c] + t, c) == s,
        after(s + seq![c] + t, c) == Some(t),
{
    let u = s + seq![c] + t;
    lemma_cut(u, c, s.len() as int);
    assert(u.subrange(0, s.len() as int) =~= s);
    assert(u.subrange(s.len() as int + 1, u.len() as int) =~= t);
}

pub proof fn after_is_shorter(s: Seq<char>, c: char)
    ensures
        match after(s, c) {
            Some(rest) => rest.len() < s.len(),
            None => true,
        },
    decreases s.len(),
{
    if s.len() > 0 && s[0] != c {
        after_is_shorter(s.drop_first(), c);
    }
}

// Unicode.

/// Every character is an ASCII one.
pub open spec fn ascii(s: Seq<char>) -> bool {
    forall|i: int| 0 <= i < s.len() ==> (#[trigger] s[i] as u32) < 0x80
}

/// The text in lower case by the rules of Unicode.
pub uninterp spec fn lowercase(s: Seq<char>) -> Seq<char>;

/// `str::to_lowercase` gives the text in lower case by the rules of Unicode, which are not stated
/// here any further than that ASCII letters follow those of ASCII.
#[verifier::external_body]
pub(crate) fn to_lowercase(s: &str) -> (r: String)
    ensures
        r@ == lowercase(s@),
        ascii(s@) ==> r@ == lower(s@),
{
    s.to_lowercase()
}

// Bytes.

/// What the standard library's UTF-8 decoder says of bytes that are not UTF-8.
pub uninterp spec fn utf8_complaint(b: Seq<u8>) -> Seq<char>;

/// `String::from_utf8` gives the text that the bytes encode where they are valid UTF-8, and an error
/// otherwise. The error's own text is a function of the bytes; it is not stated any further.
#[verifier::external_body]
pub(crate) fn text_of_utf8(b: Vec<u8>) -> (r: Result<String, String>)
    ensures
        match r {
            Ok(s) => valid_utf8(b@) && s@ == decode_utf8(b@),
            Err(m) => !valid_utf8(b@) && m@ == utf8_complaint(b@),
        },
{
    match String::from_utf8(b) {
        Ok(s) => Ok(s),
        Err(e) => Err(e.to_string()),
    }
}

// Formatting.

/// `std::fmt::Formatter`: what a value is shown on.
#[verifier::external_type_specification]
#[verifier::external_body]
pub struct ExFormatter<'a>(std::fmt::Formatter<'a>);

/// `std::fmt::Error`: text could not be written.
#[verifier::external_type_specification]
#[verifier::external_body]
pub struct ExFormatError(std::fmt::Error);

/// All the text that was written to the formatter.
pub uninterp spec fn written(f: std::fmt::Formatter<'_>) -> Seq<char>;

/// `Formatter::write_str` writes the text to the formatter, behind what is there, as it is. Where it fails
/// nothing is stated of what was written.
#[verifier::external_body]
pub(crate) fn write_text(f: &mut std::fmt::Formatter<'_>, s: &str) -> (r: std::fmt::Result)
    ensures
        r is Ok ==> written(*final(f)) == written(*old(f)) + s@,
{
    f.write_str(s)
}

// Laws.

/// The codes of the two characters are equal, or those of the two forms of one ASCII letter.
pub open spec fn letter_agrees(a: char, b: char) -> bool {
    let x = a as u32;
    let y = b as u32;
    x == y || (0x41 <= x <= 0x5a && y == x + 0x20) || (0x41 <= y <= 0x5a && x == y + 0x20)
}

/// The texts agree letter by letter.
pub open spec fn letters_agree(a: Seq<char>, b: Seq<char>) -> bool {
    a.len() == b.len() && forall|i: int| 0 <= i < a.len() ==> #[trigger] letter_agrees(a[i], b[i])
}

/// Setting case aside makes the two forms of an ASCII letter alike and no other characters.
pub proof fn case_is_set_aside(a: Seq<char>, b: Seq<char>)
    ensures
        same_ignoring_case(a, b) <==> letters_agree(a, b),
        lower(a) == lower(b) <==> letters_agree(a, b),
{
    if lower(a) == lower(b) {
        assert(lower(a).len() == lower(b).len());
        assert forall|i: int| 0 <= i < a.len() implies #[trigger] letter_agrees(a[i], b[i]) by {
            assert(lower(a)[i] == lower(b)[i]);
        }
    }
    if letters_agree(a, b) {
        assert forall|i: int| 0 <= i < a.len() implies lower(a)[i] == lower(b)[i] by {
            assert(letter_agrees(a[i], b[i]));
        }
        assert(lower(a) =~= lower(b));
    }
}

/// A text in lower case has no ASCII capital, is as long as before, agrees with what it was letter by letter,
/// and stays as it is.
pub proof fn lower_case_agrees(s: Seq<char>)
    ensures
        lower(s).len() == s.len(),
        letters_agree(s, lower(s)),
        forall|i: int| 0 <= i < s.len() ==> !(0x41 <= #[trigger] lower(s)[i] as u32 <= 0x5a),
        lower(lower(s)) == lower(s),
{
    assert(lower(lower(s)) =~= lower(s));
    case_is_set_aside(s, lower(s));
}

/// A text starts with another where it is that and something behind it.
pub proof fn starts_of_a_text(s: Seq<char>, t: Seq<char>, r: Seq<char>)
    ensures
        starts_with(t + r, t),
        starts_with(s, t) ==> s == t + s.subrange(t.len() as int, s.len() as int),
{
    assert((t + r).subrange(0, t.len() as int) =~= t);
    if starts_with(s, t) {
        assert(s =~= s.subrange(0, t.len() as int) + s.subrange(t.len() as int, s.len() as int));
    }
}

/// A text ends in another where it is that and something before it.
pub proof fn ends_of_a_text(s: Seq<char>, t: Seq<char>, r: Seq<char>)
    ensures
        ends_with(r + t, t),
        ends_with(s, t) ==> s == s.subrange(0, s.len() - t.len()) + t,
{
    let u = r + t;
    assert(u.subrange(u.len() - t.len(), u.len() as int) =~= t);
    if ends_with(s, t) {
        assert(s =~= s.subrange(0, s.len() - t.len()) + s.subrange(s.len() - t.len(), s.len() as int));
    }
}

/// A text holds another where it is that with something before and behind it.
pub proof fn middles_of_a_text(s: Seq<char>, t: Seq<char>, p: Seq<char>, q: Seq<char>) -> (i: int)
    ensures
        contains(p + t + q, t),
        contains(s, t) ==> 0 <= i && i + t.len() <= s.len() && s == s.subrange(0, i) + t + s.subrange(
            i + t.len(),
            s.len() as int,
        ),
{
    let u = p + t + q;
    assert(u.subrange(p.len() as int, p.len() as int + t.len()) =~= t);
    assert(occurs_at(u, t, p.len() as int));
    if contains(s, t) {
        let i = choose|i: int| occurs_at(s, t, i);
        assert(s =~= s.subrange(0, i) + s.subrange(i, i + t.len()) + s.subrange(i + t.len(), s.len() as int));
        i
    } else {
        0
    }
}

/// White space is what Unicode says: six ASCII characters and nineteen others, by their codes.
pub proof fn white_space_by_code(c: char)
    ensures
        white_space(c) <==> ({
            let n = c as u32;
            9 <= n <= 13 || n == 32 || n == 133 || n == 160 || n == 5760 || 8192 <= n <= 8202 || n == 8232 || n == 8233
                || n == 8239 || n == 8287 || n == 12288
        }),
        control(c) <==> (c as u32) < 32 || 127 <= (c as u32) < 160,
{
}

proof fn lemma_trim_start(s: Seq<char>) -> (k: int)
    ensures
        0 <= k <= s.len(),
        trim_start(s) == s.subrange(k, s.len() as int),
        forall|i: int| 0 <= i < k ==> white_space(#[trigger] s[i]),
        k < s.len() ==> !white_space(s[k]),
    decreases s.len(),
{
    if s.len() > 0 && white_space(s[0]) {
        let t = s.drop_first();
        let k = lemma_trim_start(t);
        assert(t.subrange(k, t.len() as int) =~= s.subrange(k + 1, s.len() as int));
        assert forall|i: int| 0 <= i < k + 1 implies white_space(#[trigger] s[i]) by {
            if i > 0 {
                assert(s[i] == t[i - 1]);
            }
        }
        k + 1
    } else {
        assert(s =~= s.subrange(0, s.len() as int));
        0
    }
}

proof fn lemma_trim_end(s: Seq<char>) -> (k: int)
    ensures
        0 <= k <= s.len(),
        trim_end(s) == s.subrange(0, k),
        forall|i: int| k <= i < s.len() ==> white_space(#[trigger] s[i]),
        k > 0 ==> !white_space(s[k - 1]),
    decreases s.len(),
{
    if s.len() > 0 && white_space(s.last()) {
        let t = s.drop_last();
        let k = lemma_trim_end(t);
        assert(t.subrange(0, k) =~= s.subrange(0, k));
        assert forall|i: int| k <= i < s.len() implies white_space(#[trigger] s[i]) by {
            if i < t.len() {
                assert(s[i] == t[i]);
            }
        }
        k
    } else {
        assert(s =~= s.subrange(0, s.len() as int));
        s.len() as int
    }
}

/// Trimming takes white space and nothing else from the two ends, and all that is there.
pub proof fn trimming_takes_the_ends(s: Seq<char>) -> (r: (Seq<char>, Seq<char>))
    ensures
        s == r.0 + trimmed(s) + r.1,
        forall|i: int| 0 <= i < r.0.len() ==> white_space(#[trigger] r.0[i]),
        forall|i: int| 0 <= i < r.1.len() ==> white_space(#[trigger] r.1[i]),
        trimmed(s).len() > 0 ==> !white_space(trimmed(s)[0]) && !white_space(trimmed(s).last()),
{
    let a = lemma_trim_start(s);
    let t = s.subrange(a, s.len() as int);
    let b = lemma_trim_end(t);
    let front = s.subrange(0, a);
    let back = t.subrange(b, t.len() as int);
    assert(s =~= front + t.subrange(0, b) + back);
    assert forall|i: int| 0 <= i < back.len() implies white_space(#[trigger] back[i]) by {
        assert(back[i] == t[b + i]);
    }
    (front, back)
}

/// A text without white space at its two ends stays as it is.
pub proof fn nothing_to_trim(s: Seq<char>)
    requires
        s.len() > 0,
        !white_space(s[0]),
        !white_space(s.last()),
    ensures
        trimmed(s) == s,
{
}

/// What is trimmed has nothing left to trim.
pub proof fn trimming_again(s: Seq<char>)
    ensures
        trimmed(trimmed(s)) == trimmed(s),
{
    let (p, q) = trimming_takes_the_ends(s);
    let t = trimmed(s);
    reveal_with_fuel(trim_start, 1);
    reveal_with_fuel(trim_end, 1);
    if t.len() > 0 {
        assert(trim_start(t) == t);
        assert(trim_end(t) == t);
    }
}

/// A run of one character is taken from the start, whole, and the rest stays.
pub proof fn strip_takes_the_run(s: Seq<char>, c: char) -> (k: nat)
    ensures
        k <= s.len(),
        strip_start(s, c) == s.subrange(k as int, s.len() as int),
        forall|i: int| 0 <= i < k ==> #[trigger] s[i] == c,
        k < s.len() ==> s[k as int] != c,
    decreases s.len(),
{
    if s.len() > 0 && s[0] == c {
        let t = s.drop_first();
        let k = strip_takes_the_run(t, c);
        assert(t.subrange(k as int, t.len() as int) =~= s.subrange(k as int + 1, s.len() as int));
        assert forall|i: int| 0 <= i < k + 1 implies #[trigger] s[i] == c by {
            if i > 0 {
                assert(s[i] == t[i - 1]);
            }
        }
        k + 1
    } else {
        assert(s =~= s.subrange(0, s.len() as int));
        0
    }
}

proof fn lemma_strip_end(s: Seq<char>, c: char) -> (k: int)
    ensures
        0 <= k <= s.len(),
        strip_end(s, c) == s.subrange(0, k),
        forall|i: int| k <= i < s.len() ==> #[trigger] s[i] == c,
        k > 0 ==> s[k - 1] != c,
    decreases s.len(),
{
    if s.len() > 0 && s.last() == c {
        let t = s.drop_last();
        let k = lemma_strip_end(t, c);
        assert(t.subrange(0, k) =~= s.subrange(0, k));
        assert forall|i: int| k <= i < s.len() implies #[trigger] s[i] == c by {
            if i < t.len() {
                assert(s[i] == t[i]);
            }
        }
        k
    } else {
        assert(s =~= s.subrange(0, s.len() as int));
        s.len() as int
    }
}

/// Runs of one character are taken from the two ends and nothing else is.
pub proof fn stripping_takes_the_ends(s: Seq<char>, c: char) -> (r: (Seq<char>, Seq<char>))
    ensures
        s == r.0 + stripped(s, c) + r.1,
        forall|i: int| 0 <= i < r.0.len() ==> #[trigger] r.0[i] == c,
        forall|i: int| 0 <= i < r.1.len() ==> #[trigger] r.1[i] == c,
        stripped(s, c).len() > 0 ==> stripped(s, c)[0] != c && stripped(s, c).last() != c,
{
    let a = strip_takes_the_run(s, c) as int;
    let t = s.subrange(a, s.len() as int);
    let b = lemma_strip_end(t, c);
    let front = s.subrange(0, a);
    let back = t.subrange(b, t.len() as int);
    assert(s =~= front + t.subrange(0, b) + back);
    assert forall|i: int| 0 <= i < back.len() implies #[trigger] back[i] == c by {
        assert(back[i] == t[b + i]);
    }
    (front, back)
}

/// A text is what stands before its first `c`, that `c` and what stands behind it, or holds no `c`.
pub proof fn text_is_cut_at_the_first(s: Seq<char>, c: char)
    ensures
        forall|i: int| 0 <= i < before(s, c).len() ==> #[trigger] before(s, c)[i] != c,
        match after(s, c) {
            Some(rest) => s == before(s, c) + seq![c] + rest,
            None => before(s, c) == s,
        },
    decreases s.len(),
{
    if s.len() > 0 && s[0] != c {
        let t = s.drop_first();
        text_is_cut_at_the_first(t, c);
        assert(before(s, c) =~= seq![s[0]] + before(t, c));
        assert forall|i: int| 0 <= i < before(s, c).len() implies #[trigger] before(s, c)[i] != c by {
            if i > 0 {
                assert(before(s, c)[i] == before(t, c)[i - 1]);
            }
        }
        assert(s =~= seq![s[0]] + t);
        match after(s, c) {
            Some(rest) => {
                assert(s =~= before(s, c) + seq![c] + rest);
            },
            None => {
                assert(before(s, c) =~= s);
            },
        }
    } else if s.len() > 0 {
        assert(s =~= Seq::<char>::empty() + seq![c] + s.drop_first());
    } else {
        assert(before(s, c) =~= s);
    }
}

/// A text without two dots in a row stays as it is; the first two dots in a row become one hyphen, and the
/// rest is treated likewise.
pub proof fn dots_become_a_hyphen(s: Seq<char>, t: Seq<char>)
    requires
        forall|i: int| 0 <= i < s.len() - 1 ==> !(#[trigger] s[i] == '.' && s[i + 1] == '.'),
        s.len() > 0 ==> s.last() != '.',
    ensures
        dots_to_hyphen(s) == s,
        dots_to_hyphen(s + seq!['.', '.'] + t) == s + seq!['-'] + dots_to_hyphen(t),
    decreases s.len(),
{
    let u = s + seq!['.', '.'] + t;
    if s.len() == 0 {
        assert(u.subrange(2, u.len() as int) =~= t);
        assert(dots_to_hyphen(s) =~= s);
        assert(dots_to_hyphen(u) =~= s + seq!['-'] + dots_to_hyphen(t));
    } else {
        let r = s.drop_first();
        assert forall|i: int| 0 <= i < r.len() - 1 implies !(#[trigger] r[i] == '.' && r[i + 1] == '.') by {
            assert(r[i] == s[i + 1] && r[i + 1] == s[i + 2]);
        }
        dots_become_a_hyphen(r, t);
        assert(s =~= seq![s[0]] + r);
        assert(u.drop_first() =~= r + seq!['.', '.'] + t);
        assert(u[0] == s[0]);
        if s.len() >= 2 {
            assert(u[1] == s[1]);
        } else {
            assert(s[0] == s.last());
        }
        assert(dots_to_hyphen(s) =~= s);
        assert(dots_to_hyphen(u) =~= seq![s[0]] + dots_to_hyphen(u.drop_first()));
        assert(seq![s[0]] + (r + seq!['-'] + dots_to_hyphen(t)) =~= s + seq!['-'] + dots_to_hyphen(t));
    }
}

/// A number is written digit by digit, ten to one, and the digits by their codes; no number but zero starts
/// with a zero.
pub proof fn decimals_go_by_tens(n: nat, d: nat)
    requires
        d < 10,
    ensures
        dec(d).len() == 1,
        dec(d)[0] as nat == 48 + d,
        n > 0 ==> dec(10 * n + d) == dec(n) + dec(d),
        n > 0 ==> dec(n)[0] != '0',
{
    if n > 0 {
        assert((10 * n + d) / 10 == n);
        assert((10 * n + d) % 10 == d);
        assert(dec(10 * n + d) =~= dec(n) + dec(d));
        lemma_first_digit(n);
    }
}

proof fn lemma_first_digit(n: nat)
    requires
        n > 0,
    ensures
        dec(n).len() > 0,
        dec(n)[0] != '0',
    decreases n,
{
    if n >= 10 {
        lemma_first_digit(n / 10);
        assert(dec(n)[0] == dec(n / 10)[0]);
    }
}

/// A hexadecimal number is written digit by digit, sixteen to one, with small letters.
pub proof fn hexadecimals_go_by_sixteens(n: nat, d: nat)
    requires
        d < 16,
    ensures
        hex(d).len() == 1,
        d < 10 ==> hex(d)[0] as nat == 48 + d,
        d >= 10 ==> hex(d)[0] as nat == 97 + d - 10,
        n > 0 ==> hex(16 * n + d) == hex(n) + hex(d),
{
    if n > 0 {
        assert((16 * n + d) / 16 == n);
        assert((16 * n + d) % 16 == d);
        assert(hex(16 * n + d) =~= hex(n) + hex(d));
    }
}

/// Two and four hexadecimal digits show every half byte, zeros too, the most significant first.
pub proof fn hexadecimals_of_fixed_length(n: nat)
    ensures
        n < 0x100 ==> hex2(n) == hex(n / 16) + hex(n % 16),
        n < 0x1_0000 ==> hex4(n) == hex(n / 0x1000) + hex(n / 0x100 % 16) + hex(n / 16 % 16) + hex(n % 16),
{
    if n < 0x100 {
        assert(hex2(n) =~= hex(n / 16) + hex(n % 16));
    }
    if n < 0x1_0000 {
        assert(n / 256 / 16 == n / 0x1000);
        assert(n % 256 / 16 == n / 16 % 16);
        assert(n % 256 % 16 == n % 16);
        assert(hex4(n) =~= hex(n / 0x1000) + hex(n / 0x100 % 16) + hex(n / 16 % 16) + hex(n % 16));
    }
}

proof fn lemma_zeros_are_worth_nothing(k: nat, s: Seq<char>)
    requires
        all_digits(s),
    ensures
        all_digits(Seq::new(k, |i: int| '0') + s),
        digits_value(Seq::new(k, |i: int| '0') + s) == digits_value(s),
    decreases k + s.len(),
{
    let z = Seq::new(k, |i: int| '0');
    let u = z + s;
    assert forall|i: int| 0 <= i < u.len() implies is_digit(#[trigger] u[i]) by {
        if i >= k {
            assert(is_digit(s[i - k]));
        }
    }
    if s.len() > 0 {
        assert forall|i: int| 0 <= i < s.drop_last().len() implies is_digit(#[trigger] s.drop_last()[i]) by {
            assert(is_digit(s[i]));
        }
        lemma_zeros_are_worth_nothing(k, s.drop_last());
        assert(u.drop_last() =~= z + s.drop_last());
    } else if k > 0 {
        lemma_zeros_are_worth_nothing((k - 1) as nat, s);
        assert(u.drop_last() =~= Seq::new((k - 1) as nat, |i: int| '0') + s);
    } else {
        assert(u =~= s);
    }
}

/// A number is read from its decimal text, with any zeros and one plus sign before it, where it is no larger
/// than the bound.
pub proof fn numbers_are_read(n: nat, zeros: nat, max: nat)
    ensures
        ({
            let s = Seq::new(zeros, |i: int| '0') + dec(n);
            let r = if n <= max {
                Some(n)
            } else {
                None
            };
            unsigned(s, max) == r && unsigned(seq!['+'] + s, max) == r
        }),
{
    let s = Seq::new(zeros, |i: int| '0') + dec(n);
    lemma_dec_digits(n);
    lemma_zeros_are_worth_nothing(zeros, dec(n));
    assert(is_digit(s[0]));
    assert((seq!['+'] + s).drop_first() =~= s);
}

/// No number is read from a text that is empty or holds anything but digits behind one plus sign.
pub proof fn only_numbers_are_read(s: Seq<char>, i: int, max: nat)
    requires
        0 <= i < s.len(),
        !(0x30 <= s[i] as u32 <= 0x39),
        !(i == 0 && s[0] == '+' && s.len() > 1),
    ensures
        unsigned(s, max) is None,
        unsigned(Seq::empty(), max) is None,
{
    assert(!is_digit(s[i]));
    if s[0] == '+' {
        let d = s.drop_first();
        if i > 0 {
            assert(d[i - 1] == s[i]);
        }
    }
}

/// A blank before a text is trimmed with the rest.
pub proof fn trimming_sets_blanks_aside(s: Seq<char>)
    ensures
        trimmed(seq![' '] + s) == trimmed(s),
{
    let t = seq![' '] + s;
    assert(t.drop_first() =~= s);
    assert(t[0] == ' ');
    assert(white_space(' '));
    reveal_with_fuel(trim_start, 2);
}

} // verus!
