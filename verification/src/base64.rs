//! Base64 (RFC 4648), and pictures as data URLs.

use vstd::prelude::*;
use crate::bytes;
use crate::text;

verus! {

/// The character that stands for six bits.
pub open spec fn letter(n: nat) -> char {
    if n < 26 {
        ('A' as nat + n) as char
    } else if n < 52 {
        ('a' as nat + (n - 26)) as char
    } else if n < 62 {
        ('0' as nat + (n - 52)) as char
    } else if n == 62 {
        '+'
    } else {
        '/'
    }
}

/// Three bytes as four characters, six bits each from the most significant on. Bytes that are not
/// there count as zero, and `=` stands for the characters that only they would make.
pub open spec fn quad(b: Seq<u8>) -> Seq<char> {
    let n = (b[0] * 0x1_0000 + (if b.len() > 1 {
        b[1] as int
    } else {
        0
    }) * 0x100 + (if b.len() > 2 {
        b[2] as int
    } else {
        0
    })) as nat;
    seq![
        letter(n / 0x4_0000),
        letter(n / 0x1000 % 0x40),
        if b.len() > 1 {
            letter(n / 0x40 % 0x40)
        } else {
            '='
        },
        if b.len() > 2 {
            letter(n % 0x40)
        } else {
            '='
        },
    ]
}

/// The bytes in Base64, three at a time.
pub open spec fn encoded(b: Seq<u8>) -> Seq<char>
    decreases b.len(),
{
    if b.len() == 0 {
        Seq::empty()
    } else if b.len() <= 3 {
        quad(b)
    } else {
        quad(b.subrange(0, 3)) + encoded(b.subrange(3, b.len() as int))
    }
}

fn letter_of(n: u8) -> (r: char)
    requires
        n < 64,
    ensures
        r == letter(n as nat),
{
    if n < 26 {
        (65u8 + n) as char
    } else if n < 52 {
        (97u8 + (n - 26)) as char
    } else if n < 62 {
        (48u8 + (n - 52)) as char
    } else if n == 62 {
        '+'
    } else {
        '/'
    }
}

fn push_quad(s: &mut String, b0: u8, b1: Option<u8>, b2: Option<u8>)
    requires
        b1 is None ==> b2 is None,
    ensures
        ({
            let b = match (b1, b2) {
                (Some(x), Some(y)) => seq![b0, x, y],
                (Some(x), None) => seq![b0, x],
                _ => seq![b0],
            };
            final(s)@ == old(s)@ + quad(b)
        }),
{
    let x: u32 = match b1 {
        Some(x) => x as u32,
        None => 0,
    };
    let y: u32 = match b2 {
        Some(y) => y as u32,
        None => 0,
    };
    let n: u32 = b0 as u32 * 0x1_0000 + x * 0x100 + y;
    s.push(letter_of((n / 0x4_0000) as u8));
    s.push(letter_of((n / 0x1000 % 0x40) as u8));
    if b1.is_some() {
        s.push(letter_of((n / 0x40 % 0x40) as u8));
    } else {
        s.push('=');
    }
    if b2.is_some() {
        s.push(letter_of((n % 0x40) as u8));
    } else {
        s.push('=');
    }
    proof {
        let b = match (b1, b2) {
            (Some(x), Some(y)) => seq![b0, x, y],
            (Some(x), None) => seq![b0, x],
            _ => seq![b0],
        };
        assert(s@ =~= old(s)@ + quad(b));
    }
}

/// The bytes in Base64.
pub fn base64_encode(data: &[u8]) -> (r: String)
    ensures
        r@ == encoded(data@),
{
    let mut r = String::new();
    let mut i: usize = 0;
    assert(data@.subrange(0, data@.len() as int) =~= data@);
    assert(Seq::<char>::empty() + encoded(data@) =~= encoded(data@));
    while i < data.len()
        invariant
            i <= data@.len(),
            r@ + encoded(data@.subrange(i as int, data@.len() as int)) == encoded(data@),
        decreases data@.len() - i,
    {
        let ghost left = data@.subrange(i as int, data@.len() as int);
        let ghost before = r@;
        let n: usize = data.len() - i;
        if n >= 3 {
            push_quad(&mut r, data[i], Some(data[i + 1]), Some(data[i + 2]));
            proof {
                let rest = data@.subrange(i + 3, data@.len() as int);
                let head = seq![data@[i as int], data@[i + 1], data@[i + 2]];
                assert(left.subrange(0, 3) =~= head);
                assert(left.subrange(3, left.len() as int) =~= rest);
                if n == 3 {
                    assert(left =~= head);
                    assert(rest =~= Seq::empty());
                    assert(before + quad(head) + encoded(rest) =~= before + quad(head));
                } else {
                    assert(before + quad(head) + encoded(rest) =~= before + (quad(head) + encoded(rest)));
                }
            }
            i = i + 3;
        } else {
            if n == 2 {
                push_quad(&mut r, data[i], Some(data[i + 1]), None);
                assert(left =~= seq![data@[i as int], data@[i + 1]]);
            } else {
                push_quad(&mut r, data[i], None, None);
                assert(left =~= seq![data@[i as int]]);
            }
            i = data.len();
            proof {
                let rest = data@.subrange(i as int, data@.len() as int);
                assert(rest =~= Seq::empty());
                assert(before + quad(left) + encoded(rest) =~= before + quad(left));
            }
        }
    }
    assert(r@ + Seq::<char>::empty() =~= r@);
    r
}

/// The first bytes of every PNG picture.
pub open spec fn png_signature() -> Seq<u8> {
    seq![0x89u8, 0x50, 0x4e, 0x47, 0x0d, 0x0a, 0x1a, 0x0a]
}

/// The address under which a picture in the format PNG is shown; `None` for other data.
pub open spec fn png_url(b: Seq<u8>) -> Option<Seq<char>> {
    if b.len() >= 8 && b.subrange(0, 8) == png_signature() {
        Some("data:image/png;base64,"@ + encoded(b))
    } else {
        None
    }
}

/// The picture as a data URL, where it is a PNG picture.
pub fn png_data_url(data: &[u8]) -> (r: Option<String>)
    ensures
        match r {
            Some(url) => png_url(data@) == Some(url@),
            None => png_url(data@) is None,
        },
{
    if data.len() < 8 {
        return None;
    }
    let signature: [u8; 8] = [0x89, 0x50, 0x4e, 0x47, 0x0d, 0x0a, 0x1a, 0x0a];
    assert(signature@ =~= png_signature());
    if !bytes::same(vstd::slice::slice_subrange(data, 0, 8), &signature) {
        return None;
    }
    Some(text::join("data:image/png;base64,", &base64_encode(data)))
}

// Laws.

/// Every three bytes, or what is left of them, make four characters.
pub proof fn encoding_is_a_third_longer(b: Seq<u8>)
    ensures
        encoded(b).len() == (b.len() + 2) / 3 * 4,
    decreases b.len(),
{
    if b.len() > 3 {
        encoding_is_a_third_longer(b.subrange(3, b.len() as int));
    }
}

/// The six bits that the character stands for.
pub open spec fn value(c: char) -> nat {
    if 'A' <= c <= 'Z' {
        (c as nat - 'A' as nat) as nat
    } else if 'a' <= c <= 'z' {
        (c as nat - 'a' as nat + 26) as nat
    } else if '0' <= c <= '9' {
        (c as nat - '0' as nat + 52) as nat
    } else if c == '+' {
        62
    } else if c == '/' {
        63
    } else {
        0
    }
}

/// The bytes that four characters stand for: three, but for those that `=` says are not there.
pub open spec fn bytes_of(q: Seq<char>) -> Seq<u8> {
    let n = value(q[0]) * 0x4_0000 + value(q[1]) * 0x1000 + value(q[2]) * 0x40 + value(q[3]);
    let b = seq![(n / 0x1_0000) as u8, (n / 0x100 % 0x100) as u8, (n % 0x100) as u8];
    if q[2] == '=' {
        b.subrange(0, 1)
    } else if q[3] == '=' {
        b.subrange(0, 2)
    } else {
        b
    }
}

/// The bytes that are written in Base64, four characters at a time.
pub open spec fn decoded(s: Seq<char>) -> Seq<u8>
    decreases s.len(),
{
    if s.len() < 4 {
        Seq::empty()
    } else {
        bytes_of(s.subrange(0, 4)) + decoded(s.subrange(4, s.len() as int))
    }
}

proof fn lemma_value_of_letter(n: nat)
    requires
        n < 64,
    ensures
        value(letter(n)) == n,
{
}

proof fn lemma_letter_is_no_padding(n: nat)
    requires
        n < 64,
    ensures
        letter(n) != '=',
{
}

/// Six bits at a time make up the whole.
proof fn lemma_sextets(n: u32)
    requires
        n < 0x100_0000,
    ensures
        n == (n / 0x4_0000) * 0x4_0000 + (n / 0x1000 % 0x40) * 0x1000 + (n / 0x40 % 0x40) * 0x40 + n % 0x40,
        n / 0x4_0000 < 64,
{
    assert(n == (n / 0x4_0000) * 0x4_0000 + (n / 0x1000 % 0x40) * 0x1000 + (n / 0x40 % 0x40) * 0x40 + n % 0x40)
        by (bit_vector);
}

spec fn at_or_zero(b: Seq<u8>, i: int) -> u8 {
    if b.len() > i {
        b[i]
    } else {
        0
    }
}

spec fn number(b: Seq<u8>) -> u32 {
    (b[0] * 0x1_0000 + at_or_zero(b, 1) * 0x100 + at_or_zero(b, 2)) as u32
}

proof fn lemma_quad(b: Seq<u8>)
    requires
        1 <= b.len() <= 3,
    ensures
        number(b) < 0x100_0000,
        quad(b)[0] == letter((number(b) / 0x4_0000) as nat),
        quad(b)[1] == letter((number(b) / 0x1000 % 0x40) as nat),
        b.len() > 1 ==> quad(b)[2] == letter((number(b) / 0x40 % 0x40) as nat),
        b.len() == 1 ==> quad(b)[2] == '=',
        b.len() > 2 ==> quad(b)[3] == letter((number(b) % 0x40) as nat),
        b.len() < 3 ==> quad(b)[3] == '=',
        b.len() < 3 ==> number(b) % 0x40 == 0,
        b.len() == 1 ==> number(b) / 0x40 % 0x40 == 0,
{
    let n = number(b);
    if b.len() < 3 {
        let hi: u32 = (b[0] * 0x100 + at_or_zero(b, 1)) as u32;
        assert(n == hi * 0x100);
        assert((hi * 0x100) % 0x40 == 0) by (nonlinear_arith);
    }
    if b.len() == 1 {
        let hi: u32 = b[0] as u32;
        assert(n == hi * 0x1_0000);
        assert(n / 0x40 == hi * 0x400);
        assert((hi * 0x400) % 0x40 == 0) by (nonlinear_arith);
    }
}

proof fn lemma_bytes_of_number(b0: u8, b1: u8, b2: u8, n: nat)
    requires
        n == b0 * 0x1_0000 + b1 * 0x100 + b2,
    ensures
        n / 0x1_0000 == b0,
        n / 0x100 % 0x100 == b1,
        n % 0x100 == b2,
{
    assert(n / 0x100 == b0 * 0x100 + b1);
}

proof fn lemma_values_of_quad(b: Seq<u8>)
    requires
        1 <= b.len() <= 3,
    ensures
        value(quad(b)[0]) == number(b) / 0x4_0000,
        value(quad(b)[1]) == number(b) / 0x1000 % 0x40,
        value(quad(b)[2]) == number(b) / 0x40 % 0x40,
        value(quad(b)[3]) == number(b) % 0x40,
        quad(b)[2] == '=' <==> b.len() == 1,
        quad(b)[3] == '=' <==> b.len() < 3,
{
    let n = number(b);
    lemma_quad(b);
    lemma_sextets(n);
    lemma_value_of_letter((n / 0x4_0000) as nat);
    lemma_value_of_letter((n / 0x1000 % 0x40) as nat);
    lemma_value_of_letter((n / 0x40 % 0x40) as nat);
    lemma_value_of_letter((n % 0x40) as nat);
    lemma_letter_is_no_padding((n / 0x40 % 0x40) as nat);
    lemma_letter_is_no_padding((n % 0x40) as nat);
}

proof fn lemma_bytes_of_quad(b: Seq<u8>)
    requires
        1 <= b.len() <= 3,
    ensures
        bytes_of(quad(b)) == b,
{
    let q = quad(b);
    lemma_quad(b);
    lemma_values_of_quad(b);
    lemma_sextets(number(b));
    let n = value(q[0]) * 0x4_0000 + value(q[1]) * 0x1000 + value(q[2]) * 0x40 + value(q[3]);
    assert(n == number(b));
    lemma_bytes_of_number(b[0], at_or_zero(b, 1), at_or_zero(b, 2), n);
    assert(bytes_of(q) =~= b);
}

/// Decoding gives back what was encoded.
pub proof fn decoding_undoes_encoding(b: Seq<u8>)
    ensures
        decoded(encoded(b)) == b,
    decreases b.len(),
{
    let s = encoded(b);
    if b.len() == 0 {
        assert(decoded(s) =~= b);
    } else if b.len() <= 3 {
        lemma_bytes_of_quad(b);
        assert(s.subrange(0, 4) =~= s);
        assert(decoded(s.subrange(4, 4)) =~= Seq::empty());
        assert(decoded(s) =~= b);
    } else {
        let first = b.subrange(0, 3);
        let rest = b.subrange(3, b.len() as int);
        lemma_bytes_of_quad(first);
        decoding_undoes_encoding(rest);
        assert(s.subrange(0, 4) =~= quad(first));
        assert(s.subrange(4, s.len() as int) =~= encoded(rest));
        assert(decoded(s) =~= first + rest);
        assert(first + rest =~= b);
    }
}

/// Different bytes are encoded differently.
pub proof fn encoding_loses_nothing(a: Seq<u8>, b: Seq<u8>)
    requires
        encoded(a) == encoded(b),
    ensures
        a == b,
{
    decoding_undoes_encoding(a);
    decoding_undoes_encoding(b);
}

/// The characters that stand for six bits.
pub open spec fn in_alphabet(c: char) -> bool {
    'A' <= c <= 'Z' || 'a' <= c <= 'z' || '0' <= c <= '9' || c == '+' || c == '/'
}

/// How many bytes are missing to a multiple of three.
pub open spec fn missing(len: nat) -> nat {
    ((3 - len % 3) % 3) as nat
}

proof fn lemma_letter_in_alphabet(n: nat)
    requires
        n < 64,
    ensures
        in_alphabet(letter(n)),
{
}

proof fn lemma_unused_bits(b0: u8, b1: u8, n: u32)
    ensures
        n == b0 * 0x1_0000 ==> n / 0x1000 % 0x40 % 16 == 0,
        n == b0 * 0x1_0000 + b1 * 0x100 ==> n / 0x40 % 0x40 % 4 == 0,
{
    if n == b0 * 0x1_0000 {
        assert(n / 0x1000 == b0 * 16);
    }
    if n == b0 * 0x1_0000 + b1 * 0x100 {
        assert(n / 0x40 == b0 * 0x400 + b1 * 4);
    }
}

proof fn lemma_padding_of_quad(b: Seq<u8>)
    requires
        1 <= b.len() <= 3,
    ensures
        in_alphabet(quad(b)[0]),
        in_alphabet(quad(b)[1]),
        b.len() > 1 ==> in_alphabet(quad(b)[2]),
        b.len() > 2 ==> in_alphabet(quad(b)[3]),
        b.len() == 1 ==> value(quad(b)[1]) % 16 == 0,
        b.len() == 2 ==> value(quad(b)[2]) % 4 == 0,
{
    let n = number(b);
    lemma_quad(b);
    lemma_sextets(n);
    lemma_values_of_quad(b);
    lemma_letter_in_alphabet((n / 0x4_0000) as nat);
    lemma_letter_in_alphabet((n / 0x1000 % 0x40) as nat);
    lemma_letter_in_alphabet((n / 0x40 % 0x40) as nat);
    lemma_letter_in_alphabet((n % 0x40) as nat);
    lemma_unused_bits(b[0], at_or_zero(b, 1), n);
}

/// The encoding ends in as many signs `=` as bytes are missing to a multiple of three, and holds none
/// elsewhere: every other character is of the alphabet. The bits that no byte needs are zero.
pub proof fn padding_stands_for_what_is_missing(b: Seq<u8>)
    ensures
        ({
            let s = encoded(b);
            let pad = missing(b.len());
            &&& pad <= s.len()
            &&& forall|i: int| 0 <= i < s.len() - pad ==> in_alphabet(#[trigger] s[i])
            &&& forall|i: int| s.len() - pad <= i < s.len() ==> #[trigger] s[i] == '='
            &&& pad == 2 ==> value(s[s.len() - 3]) % 16 == 0
            &&& pad == 1 ==> value(s[s.len() - 2]) % 4 == 0
        }),
    decreases b.len(),
{
    encoding_is_a_third_longer(b);
    if b.len() == 0 {
    } else if b.len() <= 3 {
        lemma_quad(b);
        lemma_padding_of_quad(b);
    } else {
        let first = b.subrange(0, 3);
        let rest = b.subrange(3, b.len() as int);
        lemma_padding_of_quad(first);
        padding_stands_for_what_is_missing(rest);
        let s = encoded(b);
        let t = encoded(rest);
        encoding_is_a_third_longer(rest);
        assert(missing(rest.len()) == missing(b.len()));
        assert(forall|i: int| 0 <= i < t.len() ==> t[i] == #[trigger] s[i + 4]);
        assert forall|i: int| 4 <= i < s.len() implies #[trigger] s[i] == t[i - 4] by {
            assert(t[i - 4] == s[i - 4 + 4]);
        }
    }
}

/// The character for each six bits, in the order of the standard.
pub proof fn alphabet_in_its_order(n: nat)
    requires
        n < 64,
    ensures
        letter(n) == "ABCDEFGHIJKLMNOPQRSTUVWXYZabcdefghijklmnopqrstuvwxyz0123456789+/"@[n as int],
{
    reveal_strlit("ABCDEFGHIJKLMNOPQRSTUVWXYZabcdefghijklmnopqrstuvwxyz0123456789+/");
}

proof fn lemma_bits_of_three(a: u8, b: u8, c: u8, n: nat)
    requires
        n == a * 0x1_0000 + b * 0x100 + c,
    ensures
        n / 0x4_0000 == a / 4,
        n / 0x1000 % 0x40 == a % 4 * 16 + b / 16,
        n / 0x40 % 0x40 == b % 16 * 4 + c / 64,
        n % 0x40 == c % 64,
{
    assert(n / 0x1000 == a * 16 + b / 16);
    assert(n / 0x40 == a * 1024 + b * 4 + c / 64);
}

/// Three bytes become four characters, each of which stands for the next six bits: the high six of the first
/// byte, its low two with the high four of the second, the low four of that with the high two of the third,
/// and the low six of that. Two bytes become three characters and a sign `=`, one becomes two and two signs.
/// What follows three bytes is encoded on its own.
pub proof fn characters_stand_for_six_bits(a: u8, b: u8, c: u8, rest: Seq<u8>)
    ensures
        encoded(seq![a, b, c]) == seq![
            letter((a / 4) as nat),
            letter((a % 4 * 16 + b / 16) as nat),
            letter((b % 16 * 4 + c / 64) as nat),
            letter((c % 64) as nat),
        ],
        encoded(seq![a, b]) == seq![
            letter((a / 4) as nat),
            letter((a % 4 * 16 + b / 16) as nat),
            letter((b % 16 * 4) as nat),
            '=',
        ],
        encoded(seq![a]) == seq![letter((a / 4) as nat), letter((a % 4 * 16) as nat), '=', '='],
        encoded(seq![a, b, c] + rest) == encoded(seq![a, b, c]) + encoded(rest),
        encoded(Seq::empty()) == Seq::<char>::empty(),
{
    lemma_bits_of_three(a, b, c, (a * 0x1_0000 + b * 0x100 + c) as nat);
    lemma_bits_of_three(a, b, 0, (a * 0x1_0000 + b * 0x100) as nat);
    lemma_bits_of_three(a, 0, 0, (a * 0x1_0000) as nat);
    let whole = seq![a, b, c] + rest;
    assert(whole.subrange(0, 3) =~= seq![a, b, c]);
    assert(whole.subrange(3, whole.len() as int) =~= rest);
    if rest.len() == 0 {
        assert(whole =~= seq![a, b, c]);
        assert(encoded(whole) + Seq::<char>::empty() =~= encoded(whole));
    }
}

/// A picture is shown where it begins with the eight bytes of the format, and as all of its bytes.
pub proof fn pictures_begin_with_the_signature(b: Seq<u8>)
    ensures
        png_url(b) is Some <==> b.len() >= 8 && b[0] == 137 && b[1] == 80 && b[2] == 78 && b[3] == 71 && b[4] == 13
            && b[5] == 10 && b[6] == 26 && b[7] == 10,
        png_url(b) is Some ==> png_url(b)->0 == "data:image/png;base64,"@ + encoded(b),
{
    if b.len() >= 8 {
        let s = b.subrange(0, 8);
        if b[0] == 137 && b[1] == 80 && b[2] == 78 && b[3] == 71 && b[4] == 13 && b[5] == 10 && b[6] == 26 && b[7] == 10 {
            assert(s =~= png_signature());
        } else {
            assert(forall|i: int| 0 <= i < 8 ==> #[trigger] s[i] == b[i]);
        }
    }
}

} // verus!
