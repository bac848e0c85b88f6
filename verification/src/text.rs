//! Small text-building helpers: hexadecimal digit tables, `U+XXXX` codepoint
//! text, space-separated hex byte dumps, and the UTF-8 encoding of a single
//! character, each proved against a spec-level definition.

use vstd::prelude::*;

verus! {

use vstd::utf8::encode_scalar;
use vstd::utf8::encode_utf8;
use vstd::utf8::char_is_scalar;
use vstd::string::StringExecFns;

/// True when the character is in the ASCII range.
pub open spec fn char_is_ascii(c: char) -> bool {
    (c as u32) <= 0x7F
}

/// Relies on `String::push`: it appends exactly the given character.
#[verifier::external_body]
pub fn push_char(s: &mut String, c: char)
    ensures
        final(s)@ == old(s)@ + seq![c],
{
    s.push(c);
}

/// The lowercase hexadecimal digit for a value below sixteen.
pub open spec fn hex_digit_lower(n: u8) -> char
    recommends
        n < 16,
{
    if n == 0 { '0' } else if n == 1 { '1' } else if n == 2 { '2' } else if n == 3 { '3' }
    else if n == 4 { '4' } else if n == 5 { '5' } else if n == 6 { '6' } else if n == 7 { '7' }
    else if n == 8 { '8' } else if n == 9 { '9' } else if n == 10 { 'a' } else if n == 11 { 'b' }
    else if n == 12 { 'c' } else if n == 13 { 'd' } else if n == 14 { 'e' } else { 'f' }
}

/// The uppercase hexadecimal digit for a value below sixteen.
pub open spec fn hex_digit_upper(n: u8) -> char
    recommends
        n < 16,
{
    if n == 0 { '0' } else if n == 1 { '1' } else if n == 2 { '2' } else if n == 3 { '3' }
    else if n == 4 { '4' } else if n == 5 { '5' } else if n == 6 { '6' } else if n == 7 { '7' }
    else if n == 8 { '8' } else if n == 9 { '9' } else if n == 10 { 'A' } else if n == 11 { 'B' }
    else if n == 12 { 'C' } else if n == 13 { 'D' } else if n == 14 { 'E' } else { 'F' }
}

pub fn hex_digit_lower_char(n: u8) -> (c: char)
    requires
        n < 16,
    ensures
        c == hex_digit_lower(n),
{
    if n == 0 { '0' } else if n == 1 { '1' } else if n == 2 { '2' } else if n == 3 { '3' }
    else if n == 4 { '4' } else if n == 5 { '5' } else if n == 6 { '6' } else if n == 7 { '7' }
    else if n == 8 { '8' } else if n == 9 { '9' } else if n == 10 { 'a' } else if n == 11 { 'b' }
    else if n == 12 { 'c' } else if n == 13 { 'd' } else if n == 14 { 'e' } else { 'f' }
}

pub fn hex_digit_upper_char(n: u8) -> (c: char)
    requires
        n < 16,
    ensures
        c == hex_digit_upper(n),
{
    if n == 0 { '0' } else if n == 1 { '1' } else if n == 2 { '2' } else if n == 3 { '3' }
    else if n == 4 { '4' } else if n == 5 { '5' } else if n == 6 { '6' } else if n == 7 { '7' }
    else if n == 8 { '8' } else if n == 9 { '9' } else if n == 10 { 'A' } else if n == 11 { 'B' }
    else if n == 12 { 'C' } else if n == 13 { 'D' } else if n == 14 { 'E' } else { 'F' }
}

/// The uppercase hexadecimal text of `n`, zero-padded to at least `w` digits.
pub open spec fn upper_hex_text(n: u32, w: nat) -> Seq<char>
    decreases n, w,
{
    if n < 16 && w <= 1 {
        seq![hex_digit_upper((n % 16) as u8)]
    } else {
        upper_hex_text(n / 16, if w <= 1 { 0 } else { (w - 1) as nat })
            + seq![hex_digit_upper((n % 16) as u8)]
    }
}

pub fn upper_hex_string(n: u32, w: u8) -> (r: String)
    ensures
        r@ == upper_hex_text(n, w as nat),
    decreases n, w,
{
    if n < 16 && w <= 1 {
        let mut s = String::new();
        push_char(&mut s, hex_digit_upper_char((n % 16) as u8));
        proof {
            assert(s@ =~= upper_hex_text(n, w as nat));
        }
        s
    } else {
        let mut s = upper_hex_string(n / 16, if w <= 1 { 0 } else { w - 1 });
        push_char(&mut s, hex_digit_upper_char((n % 16) as u8));
        proof {
            assert(s@ =~= upper_hex_text(n, w as nat));
        }
        s
    }
}

/// The canonical `U+XXXX` text for a codepoint value: `U+` followed by the
/// uppercase hexadecimal digits, zero-padded to at least four.
pub open spec fn codepoint_text(n: u32) -> Seq<char> {
    seq!['U', '+'] + upper_hex_text(n, 4)
}

pub fn codepoint_string(c: char) -> (r: String)
    ensures
        r@ == codepoint_text(c as u32),
{
    let mut s = String::new();
    push_char(&mut s, 'U');
    push_char(&mut s, '+');
    let hex = upper_hex_string(c as u32, 4);
    s.append(hex.as_str());
    proof {
        assert(s@ =~= codepoint_text(c as u32));
    }
    s
}

/// True when the character is an uppercase hexadecimal digit.
pub open spec fn is_upper_hex_digit(c: char) -> bool {
    ('0' <= c && c <= '9') || ('A' <= c && c <= 'F')
}

proof fn lemma_upper_hex_form(n: u32, w: nat)
    ensures
        upper_hex_text(n, w).len() >= w,
        upper_hex_text(n, w).len() >= 1,
        forall|i: int|
            0 <= i < upper_hex_text(n, w).len() ==> is_upper_hex_digit(
                #[trigger] upper_hex_text(n, w)[i],
            ),
    decreases n, w,
{
    if n < 16 && w <= 1 {
    } else {
        lemma_upper_hex_form(n / 16, if w <= 1 { 0 } else { (w - 1) as nat });
    }
}

/// Law: the codepoint text is always `U+` followed by at least four uppercase
/// hexadecimal digits, zero-padded.
pub proof fn lemma_codepoint_form(n: u32)
    ensures
        codepoint_text(n).len() >= 6,
        codepoint_text(n)[0] == 'U',
        codepoint_text(n)[1] == '+',
        forall|i: int|
            2 <= i < codepoint_text(n).len() ==> is_upper_hex_digit(#[trigger] codepoint_text(n)[i]),
{
    lemma_upper_hex_form(n, 4);
}

/// The lowercase two-digit hexadecimal text of the given bytes, separated by
/// single spaces.
pub open spec fn hex_bytes_text(bytes: Seq<u8>) -> Seq<char>
    decreases bytes.len(),
{
    if bytes.len() == 0 {
        Seq::empty()
    } else if bytes.len() == 1 {
        seq![hex_digit_lower(bytes[0] / 16), hex_digit_lower(bytes[0] % 16)]
    } else {
        hex_bytes_text(bytes.drop_last())
            + seq![' ', hex_digit_lower(bytes.last() / 16), hex_digit_lower(bytes.last() % 16)]
    }
}

pub fn hex_bytes_string(bytes: &Vec<u8>) -> (r: String)
    ensures
        r@ == hex_bytes_text(bytes@),
{
    let mut s = String::new();
    let mut i: usize = 0;
    while i < bytes.len()
        invariant
            i <= bytes@.len(),
            s@ == hex_bytes_text(bytes@.take(i as int)),
        decreases bytes@.len() - i,
    {
        if i > 0 {
            push_char(&mut s, ' ');
        }
        let b = bytes[i];
        push_char(&mut s, hex_digit_lower_char(b / 16));
        push_char(&mut s, hex_digit_lower_char(b % 16));
        proof {
            assert(bytes@.take(i + 1).drop_last() =~= bytes@.take(i as int));
            assert(bytes@.take(i + 1).last() == bytes@[i as int]);
            assert(s@ =~= hex_bytes_text(bytes@.take(i + 1)));
        }
        i += 1;
    }
    proof {
        assert(bytes@.take(bytes@.len() as int) =~= bytes@);
    }
    s
}

/// The UTF-8 encoding of a single character, proved equal to vstd's
/// `encode_scalar` specification.
pub fn utf8_bytes_of_char(c: char) -> (v: Vec<u8>)
    ensures
        v@ == encode_scalar(c as u32),
        1 <= v@.len() <= 4,
{
    proof {
        char_is_scalar(c);
    }
    let u = c as u32;
    let mut v: Vec<u8> = Vec::new();
    if u <= 0x7F {
        v.push((u & 0x7F) as u8);
        proof {
            assert(v@ =~= encode_scalar(u));
        }
    } else if u <= 0x7FF {
        v.push(0xC0u8 | (((u >> 6) & 0x1F) as u8));
        v.push(0x80u8 | ((u & 0x3F) as u8));
        proof {
            assert(v@ =~= encode_scalar(u));
        }
    } else if u <= 0xFFFF {
        v.push(0xE0u8 | (((u >> 12) & 0x0F) as u8));
        v.push(0x80u8 | (((u >> 6) & 0x3F) as u8));
        v.push(0x80u8 | ((u & 0x3F) as u8));
        proof {
            assert(v@ =~= encode_scalar(u));
        }
    } else {
        v.push(0xF0u8 | (((u >> 18) & 0x7) as u8));
        v.push(0x80u8 | (((u >> 12) & 0x3F) as u8));
        v.push(0x80u8 | (((u >> 6) & 0x3F) as u8));
        v.push(0x80u8 | ((u & 0x3F) as u8));
        proof {
            assert(v@ =~= encode_scalar(u));
        }
    }
    v
}

/// The number of bytes in the UTF-8 encoding of a character.
pub fn utf8_char_len(c: char) -> (n: usize)
    ensures
        n == encode_scalar(c as u32).len(),
        1 <= n <= 4,
{
    proof {
        char_is_scalar(c);
    }
    let u = c as u32;
    if u <= 0x7F {
        1
    } else if u <= 0x7FF {
        2
    } else if u <= 0xFFFF {
        3
    } else {
        4
    }
}

/// The least index at or after `from` whose element satisfies `p`, if any.
pub open spec fn first_from<T>(s: Seq<T>, p: spec_fn(T) -> bool, from: int) -> Option<int>
    decreases s.len() - from,
{
    if from < 0 || from >= s.len() {
        None
    } else if p(s[from]) {
        Some(from)
    } else {
        first_from(s, p, from + 1)
    }
}

/// A scan that saw no match up to `i` and a match at `i` pins `first_from`.
pub proof fn lemma_first_from_found<T>(s: Seq<T>, p: spec_fn(T) -> bool, from: int, i: int)
    requires
        0 <= from <= i < s.len(),
        forall|j: int| from <= j < i ==> !#[trigger] p(s[j]),
        p(s[i]),
    ensures
        first_from(s, p, from) == Some(i),
    decreases i - from,
{
    if from < i {
        lemma_first_from_found(s, p, from + 1, i);
    }
}

/// A scan that saw no match at all pins `first_from` to `None`.
pub proof fn lemma_first_from_none<T>(s: Seq<T>, p: spec_fn(T) -> bool, from: int)
    requires
        from >= 0,
        forall|j: int| from <= j < s.len() ==> !#[trigger] p(s[j]),
    ensures
        first_from(s, p, from) is None,
    decreases s.len() - from,
{
    if from < s.len() {
        lemma_first_from_none(s, p, from + 1);
    }
}

/// Whatever `first_from` finds is a match, is the first one, and is in range.
pub proof fn lemma_first_from_props<T>(s: Seq<T>, p: spec_fn(T) -> bool, from: int)
    requires
        from >= 0,
    ensures
        first_from(s, p, from) matches Some(i) ==> from <= i < s.len() && p(s[i]) && forall|j: int|
            from <= j < i ==> !#[trigger] p(s[j]),
        first_from(s, p, from) is None ==> forall|j: int|
            from <= j < s.len() ==> !#[trigger] p(s[j]),
    decreases s.len() - from,
{
    if 0 <= from < s.len() && !p(s[from]) {
        lemma_first_from_props(s, p, from + 1);
    }
}

/// Appending one character extends the UTF-8 encoding by that character's
/// own encoding.
pub proof fn lemma_encode_utf8_push(s: Seq<char>, c: char)
    ensures
        encode_utf8(s.push(c)) =~= encode_utf8(s) + encode_scalar(c as u32),
    decreases s.len(),
{
    if s.len() == 0 {
        reveal_with_fuel(encode_utf8, 2);
        assert(s.push(c).drop_first() =~= Seq::<char>::empty());
        assert(s.push(c)[0] == c);
        assert(encode_utf8(s) =~= Seq::<u8>::empty());
        assert(encode_utf8(s.push(c)) =~= encode_scalar(c as u32));
    } else {
        assert(s.push(c).drop_first() =~= s.drop_first().push(c));
        lemma_encode_utf8_push(s.drop_first(), c);
    }
}

/// The UTF-8 encoding of a sequence splits at any index.
pub proof fn lemma_encode_utf8_split(s: Seq<char>, i: int)
    requires
        0 <= i <= s.len(),
    ensures
        encode_utf8(s) =~= encode_utf8(s.take(i)) + encode_utf8(s.skip(i)),
    decreases i,
{
    if i == 0 {
        assert(s.take(0) =~= Seq::<char>::empty());
        assert(s.skip(0) =~= s);
    } else {
        lemma_encode_utf8_split(s, i - 1);
        assert(s.take(i) =~= s.take(i - 1).push(s[i - 1]));
        lemma_encode_utf8_push(s.take(i - 1), s[i - 1]);
        assert(s.skip(i - 1) =~= seq![s[i - 1]] + s.skip(i));
        assert(encode_utf8(s.skip(i - 1)) =~= encode_scalar(s[i - 1] as u32) + encode_utf8(s.skip(i)))
        by {
            assert(s.skip(i - 1)[0] == s[i - 1]);
            assert(s.skip(i - 1).drop_first() =~= s.skip(i));
        }
    }
}

} // verus!
