//! Building request addresses: escaping one step of a path or a query value.
use vstd::prelude::*;
use vstd::string::StringSliceAdditionalSpecFns;
use crate::text::{bytes_of, push_char};

verus! {

/// Bytes that stand for themselves in an address: letters, digits, `-`, `.`, `_`, `~`.
pub open spec fn is_unreserved(b: u8) -> bool {
    (65 <= b <= 90) || (97 <= b <= 122) || (48 <= b <= 57) || b == 45 || b == 46 || b == 95
        || b == 126
}

/// The upper-case hexadecimal digit of a value below sixteen.
pub open spec fn hex_digit_spec(n: u8) -> char {
    if n < 10 {
        ((48 + n) as u8) as char
    } else {
        ((55 + n) as u8) as char
    }
}

/// What one byte becomes in an escaped address.
pub open spec fn escape_byte(b: u8) -> Seq<char> {
    if is_unreserved(b) {
        seq![b as char]
    } else {
        seq!['%', hex_digit_spec(b / 16), hex_digit_spec(b % 16)]
    }
}

/// The escaped form of a byte sequence: each byte escaped in turn.
pub open spec fn escaped(bytes: Seq<u8>) -> Seq<char>
    decreases bytes.len(),
{
    if bytes.len() == 0 {
        Seq::empty()
    } else {
        escaped(bytes.drop_last()) + escape_byte(bytes.last())
    }
}

/// The escaped form of a text: the bytes of its UTF-8 encoding escaped in turn.
pub open spec fn escaped_text(s: Seq<char>) -> Seq<char> {
    escaped(vstd::utf8::encode_utf8(s))
}

/// The characters an escaped step may hold: letters, digits, `-`, `.`, `_`, `~` and `%`.
pub open spec fn is_step_char(c: char) -> bool {
    let v = c as u32;
    (48 <= v <= 57) || (65 <= v <= 90) || (97 <= v <= 122) || v == 45 || v == 46 || v == 95
        || v == 126 || v == 37
}

proof fn lemma_escape_byte_safe(b: u8)
    ensures
        forall|k: int| 0 <= k < escape_byte(b).len() ==> is_step_char(#[trigger] escape_byte(b)[k]),
{
    assert(b / 16 < 16 && b % 16 < 16);
    let hi = b / 16;
    let lo = b % 16;
    assert(hex_digit_spec(hi) as u32 == if hi < 10 { 48 + hi } else { 55 + hi });
    assert(hex_digit_spec(lo) as u32 == if lo < 10 { 48 + lo } else { 55 + lo });
    assert((b as char) as u32 == b);
}

/// An escaped text stays inside one step of an address: it holds no `/`, `?`,
/// `&`, `#`, space or any other character outside the unreserved ones and `%`.
pub proof fn escaped_stays_in_one_step(bytes: Seq<u8>)
    ensures
        forall|k: int| 0 <= k < escaped(bytes).len() ==> is_step_char(#[trigger] escaped(bytes)[k]),
    decreases bytes.len(),
{
    if bytes.len() > 0 {
        escaped_stays_in_one_step(bytes.drop_last());
        lemma_escape_byte_safe(bytes.last());
        let head = escaped(bytes.drop_last());
        let tail = escape_byte(bytes.last());
        assert forall|k: int| 0 <= k < escaped(bytes).len() implies is_step_char(#[trigger] escaped(bytes)[k]) by {
            if k < head.len() {
                assert(escaped(bytes)[k] == head[k]);
            } else {
                assert(escaped(bytes)[k] == tail[k - head.len()]);
            }
        }
    }
}

/// Escaping leaves a text of letters, digits, `-`, `.`, `_` and `~` as it is.
pub proof fn escaping_keeps_plain_bytes(bytes: Seq<u8>)
    requires
        forall|k: int| 0 <= k < bytes.len() ==> is_unreserved(#[trigger] bytes[k]),
    ensures
        escaped(bytes) == bytes.map_values(|b: u8| b as char),
    decreases bytes.len(),
{
    if bytes.len() > 0 {
        escaping_keeps_plain_bytes(bytes.drop_last());
        assert(is_unreserved(bytes[bytes.len() - 1]));
        assert(escaped(bytes) =~= bytes.map_values(|b: u8| b as char));
    }
}

/// The value of a hexadecimal digit, either case; zero for any other character.
pub open spec fn hex_value(c: char) -> int {
    let v = c as u32;
    if 48 <= v <= 57 {
        v - 48
    } else if 65 <= v <= 70 {
        v - 55
    } else if 97 <= v <= 102 {
        v - 87
    } else {
        0
    }
}

/// The bytes an escaped text stands for: `%` and two hexadecimal digits give
/// the byte they write, any other character the byte of its code.
pub open spec fn unescaped(s: Seq<char>) -> Seq<u8>
    decreases s.len(),
{
    if s.len() == 0 {
        Seq::empty()
    } else if s[0] == '%' && s.len() >= 3 {
        seq![(hex_value(s[1]) * 16 + hex_value(s[2])) as u8] + unescaped(s.skip(3))
    } else {
        seq![s[0] as u8] + unescaped(s.skip(1))
    }
}

/// How many bytes of `bytes` are escaped rather than kept.
pub open spec fn escaped_count(bytes: Seq<u8>) -> nat
    decreases bytes.len(),
{
    if bytes.len() == 0 {
        0
    } else {
        escaped_count(bytes.drop_last()) + if is_unreserved(bytes.last()) { 0nat } else { 1nat }
    }
}

proof fn lemma_escaped_concat(a: Seq<u8>, b: Seq<u8>)
    ensures
        escaped(a + b) == escaped(a) + escaped(b),
    decreases b.len(),
{
    if b.len() == 0 {
        assert(a + b =~= a);
        assert(escaped(a) + escaped(b) =~= escaped(a));
    } else {
        lemma_escaped_concat(a, b.drop_last());
        assert((a + b).drop_last() =~= a + b.drop_last());
        assert((a + b).last() == b.last());
        assert(escaped(a) + escaped(b) =~= escaped(a) + escaped(b.drop_last()) + escape_byte(b.last()));
    }
}

proof fn lemma_hex_round_trip(n: u8)
    requires
        n < 16,
    ensures
        hex_value(hex_digit_spec(n)) == n,
{
    if n < 10 {
        assert(hex_digit_spec(n) as u32 == 48 + n);
    } else {
        assert(hex_digit_spec(n) as u32 == 55 + n);
    }
}

proof fn lemma_unescape_escaped(bytes: Seq<u8>)
    ensures
        unescaped(escaped(bytes)) == bytes,
    decreases bytes.len(),
{
    if bytes.len() > 0 {
        let b = bytes[0];
        let rest = bytes.drop_first();
        assert(bytes =~= seq![b] + rest);
        lemma_escaped_concat(seq![b], rest);
        assert(seq![b].drop_last() =~= Seq::<u8>::empty());
        assert(escaped(Seq::<u8>::empty()) =~= Seq::<char>::empty());
        assert(seq![b].last() == b);
        assert(escaped(seq![b]) == escaped(seq![b].drop_last()) + escape_byte(b));
        assert(escaped(seq![b]) =~= escape_byte(b));
        let e = escaped(bytes);
        let er = escaped(rest);
        lemma_unescape_escaped(rest);
        if is_unreserved(b) {
            assert(e =~= seq![b as char] + er);
            assert((b as char) as u32 == b);
            assert(e[0] != '%');
            assert(e.skip(1) =~= er);
            assert(((b as char) as u8) == b);
        } else {
            let hi = b / 16;
            let lo = b % 16;
            assert(e =~= seq!['%', hex_digit_spec(hi), hex_digit_spec(lo)] + er);
            assert(e.skip(3) =~= er);
            lemma_hex_round_trip(hi);
            lemma_hex_round_trip(lo);
            assert(hi * 16 + lo == b);
        }
        assert(unescaped(e) =~= seq![b] + rest);
    }
}

proof fn lemma_escaped_len(bytes: Seq<u8>)
    ensures
        escaped(bytes).len() == bytes.len() + 2 * escaped_count(bytes),
    decreases bytes.len(),
{
    if bytes.len() > 0 {
        lemma_escaped_len(bytes.drop_last());
    }
}

proof fn lemma_none_escaped(bytes: Seq<u8>)
    requires
        escaped_count(bytes) == 0,
    ensures
        forall|k: int| 0 <= k < bytes.len() ==> is_unreserved(#[trigger] bytes[k]),
    decreases bytes.len(),
{
    if bytes.len() > 0 {
        lemma_none_escaped(bytes.drop_last());
        assert forall|k: int| 0 <= k < bytes.len() implies is_unreserved(#[trigger] bytes[k]) by {
            if k < bytes.len() - 1 {
                assert(bytes[k] == bytes.drop_last()[k]);
            }
        }
    }
}

proof fn lemma_utf8_len(s: Seq<char>)
    ensures
        vstd::utf8::encode_utf8(s).len() >= s.len(),
    decreases s.len(),
{
    if s.len() > 0 {
        lemma_utf8_len(s.drop_first());
    }
}

proof fn lemma_plain_text_encodes_itself(s: Seq<char>)
    requires
        forall|k: int| 0 <= k < vstd::utf8::encode_utf8(s).len() ==> is_unreserved(
            #[trigger] vstd::utf8::encode_utf8(s)[k],
        ),
    ensures
        vstd::utf8::encode_utf8(s).map_values(|b: u8| b as char) == s,
    decreases s.len(),
{
    broadcast use vstd::utf8::char_u32_cast;
    let bytes = vstd::utf8::encode_utf8(s);
    if s.len() == 0 {
        assert(bytes.map_values(|b: u8| b as char) =~= s);
    } else {
        let c = s[0];
        let v = c as u32;
        let first = vstd::utf8::encode_scalar(v);
        let rest = vstd::utf8::encode_utf8(s.drop_first());
        assert(bytes == first + rest);
        assert(bytes[0] == first[0]);
        assert(is_unreserved(bytes[0]));
        if vstd::utf8::has_width_1_encoding(v) {
            assert(first == seq![vstd::utf8::leading_byte_width_1(v)]);
        } else if vstd::utf8::has_width_2_encoding(v) {
            let lb = vstd::utf8::leading_byte_width_2(v);
            assert(first[0] == lb);
            assert(lb >= 0xC0) by (bit_vector)
                requires
                    lb == 0xC0u8 | ((v >> 6u32) & 0x1Fu32) as u8,
            ;
        } else if vstd::utf8::has_width_3_encoding(v) {
            let lb = vstd::utf8::leading_byte_width_3(v);
            assert(first[0] == lb);
            assert(lb >= 0xE0) by (bit_vector)
                requires
                    lb == 0xE0u8 | ((v >> 12u32) & 0x0Fu32) as u8,
            ;
        } else {
            let lb = vstd::utf8::leading_byte_width_4(v);
            assert(first[0] == lb);
            assert(lb >= 0xF0) by (bit_vector)
                requires
                    lb == 0xF0u8 | ((v >> 18u32) & 0x7u32) as u8,
            ;
        }
        assert(vstd::utf8::has_width_1_encoding(v));
        let b0 = (v & 0x7Fu32) as u8;
        assert(b0 as u32 == v) by (bit_vector)
            requires
                v <= 0x7Fu32,
                b0 == (v & 0x7Fu32) as u8,
        ;
        assert(first =~= seq![b0]);
        assert forall|k: int| 0 <= k < rest.len() implies is_unreserved(#[trigger] rest[k]) by {
            assert(bytes[k + 1] == rest[k]);
        }
        lemma_plain_text_encodes_itself(s.drop_first());
        vstd::utf8::char_u32_cast(c, v);
        assert((v as char) == c);
        assert((b0 as char) == (v as char));
        assert((b0 as char) == c);
        assert(bytes.map_values(|b: u8| b as char) =~= seq![c] + rest.map_values(|b: u8| b as char));
        assert(s =~= seq![c] + s.drop_first());
    }
}

/// Escaping can be undone: decoding an escaped text gives back the bytes of
/// the text. And a text comes out of escaping as it went in exactly when
/// every byte of it is a letter, a digit, `-`, `.`, `_` or `~`.
pub proof fn escaping_is_undone_by_decoding(s: Seq<char>)
    ensures
        unescaped(escaped_text(s)) == vstd::utf8::encode_utf8(s),
        escaped_text(s) == s <==> forall|k: int|
            0 <= k < vstd::utf8::encode_utf8(s).len() ==> is_unreserved(
                #[trigger] vstd::utf8::encode_utf8(s)[k],
            ),
{
    let bytes = vstd::utf8::encode_utf8(s);
    lemma_unescape_escaped(bytes);
    lemma_escaped_len(bytes);
    lemma_utf8_len(s);
    if escaped_text(s) == s {
        lemma_none_escaped(bytes);
    }
    if forall|k: int| 0 <= k < bytes.len() ==> is_unreserved(#[trigger] bytes[k]) {
        escaping_keeps_plain_bytes(bytes);
        lemma_plain_text_encodes_itself(s);
    }
}

fn hex_digit(n: u8) -> (c: char)
    requires
        n < 16,
    ensures
        c == hex_digit_spec(n),
{
    if n < 10 {
        (48 + n) as char
    } else {
        (55 + n) as char
    }
}

/// Escapes a value so that it stays inside one step of an address: every byte
/// that is not unreserved becomes `%` and two upper-case hexadecimal digits.
pub fn encode_path(raw: &str) -> (out: String)
    ensures
        out@ == escaped_text(raw@),
{
    let bytes = raw.as_bytes();
    let mut out = String::new();
    let mut i: usize = 0;
    while i < bytes.len()
        invariant
            i <= bytes@.len(),
            bytes@ == bytes_of(raw),
            out@ == escaped(bytes@.subrange(0, i as int)),
        decreases bytes@.len() - i,
    {
        let b = bytes[i];
        assert(bytes@.subrange(0, i + 1).drop_last() =~= bytes@.subrange(0, i as int));
        if (65 <= b && b <= 90) || (97 <= b && b <= 122) || (48 <= b && b <= 57) || b == 45
            || b == 46 || b == 95 || b == 126 {
            push_char(&mut out, b as char);
        } else {
            push_char(&mut out, '%');
            push_char(&mut out, hex_digit(b / 16));
            push_char(&mut out, hex_digit(b % 16));
        }
        i = i + 1;
    }
    assert(bytes@.subrange(0, bytes@.len() as int) =~= bytes@);
    out
}

} // verus!
