//! Byte and text encodings that come from outside the crate.

use crate::reading;
use base64::engine::general_purpose::STANDARD;
use base64::Engine;
use vstd::prelude::*;
use vstd::utf8::*;

verus! {

/// The text that `String::from_utf8_lossy` makes of `bytes`.
pub uninterp spec fn utf8_lossy(bytes: Seq<u8>) -> Seq<char>;

/// How lossy text relates to its bytes at the end of each valid prefix: the
/// characters of the prefix are kept, the whole is kept when all of it is
/// valid, and a replacement character stands where an invalid sequence begins.
pub open spec fn lossy_text_of(bytes: Seq<u8>, text: Seq<char>) -> bool {
    forall|i: int| #[trigger]
        partial_valid_utf8(bytes, i) ==> {
            let kept = decode_utf8(bytes.subrange(0, i));
            let rest = bytes.subrange(i, bytes.len() as int);
            &&& kept.is_prefix_of(text)
            &&& rest.len() == 0 ==> text == kept
            &&& rest.len() > 0 && !valid_first_scalar(rest) ==> kept.len() < text.len()
                && text[kept.len() as int] == '\u{FFFD}'
        }
}

/// Calls `String::from_utf8_lossy`. The contract names its result and says of
/// it that valid parts are kept and that each invalid sequence gives way to
/// U+FFFD; it leaves open how many bytes one U+FFFD stands for, and so what
/// follows the first of them.
#[verifier::external_body]
pub(crate) fn decode_lossy(bytes: &[u8]) -> (text: String)
    ensures
        text@ == utf8_lossy(bytes@),
        lossy_text_of(bytes@, text@),
{
    String::from_utf8_lossy(bytes).into_owned()
}

/// The character of the standard Base64 alphabet that stands for `n`, for `n`
/// below 64.
pub open spec fn base64_digit(n: int) -> char {
    if n < 26 {
        ('A' as int + n) as char
    } else if n < 52 {
        ('a' as int + n - 26) as char
    } else if n < 62 {
        ('0' as int + n - 52) as char
    } else if n == 62 {
        '+'
    } else {
        '/'
    }
}

/// The Base64 text of `data`: each three bytes are four digits of six bits, and
/// a last group of one or two bytes is filled up with zero bits and padding.
pub open spec fn base64_text(data: Seq<u8>) -> Seq<char>
    decreases data.len(),
{
    let a = data[0] as int;
    let b = data[1] as int;
    let c = data[2] as int;
    if data.len() == 0 {
        seq![]
    } else if data.len() == 1 {
        seq![base64_digit(a / 4), base64_digit(a % 4 * 16), '=', '=']
    } else if data.len() == 2 {
        seq![base64_digit(a / 4), base64_digit(a % 4 * 16 + b / 16), base64_digit(b % 16 * 4), '=']
    } else {
        seq![
            base64_digit(a / 4),
            base64_digit(a % 4 * 16 + b / 16),
            base64_digit(b % 16 * 4 + c / 64),
            base64_digit(c % 64),
        ] + base64_text(data.skip(3))
    }
}

/// How many characters Base64 with padding takes for `len` bytes.
pub open spec fn base64_len(len: nat) -> nat {
    4 * ((len + 2) / 3)
}

/// The characters of the standard Base64 alphabet and its padding.
pub open spec fn is_base64_char(c: char) -> bool {
    'A' <= c <= 'Z' || 'a' <= c <= 'z' || '0' <= c <= '9' || c == '+' || c == '/' || c == '='
}

/// Calls `Engine::encode` on `base64::engine::general_purpose::STANDARD`. The
/// contract says that the result is the Base64 text of RFC 4648, in the
/// standard alphabet and with padding. Data whose encoding would not fit in a
/// `String` is left out: the engine panics on it.
#[verifier::external_body]
pub(crate) fn encode_base64(data: &[u8]) -> (text: String)
    requires
        base64_len(data@.len()) <= isize::MAX,
    ensures
        text@ == base64_text(data@),
{
    STANDARD.encode(data)
}

/// Base64 text is made of whole groups of four characters, all of them from the
/// standard alphabet or padding.
pub proof fn law_base64_shape(data: Seq<u8>)
    ensures
        base64_text(data).len() == base64_len(data.len()),
        forall|i: int|
            0 <= i < base64_text(data).len() ==> is_base64_char(#[trigger] base64_text(data)[i]),
    decreases data.len(),
{
    if data.len() >= 3 {
        let later = base64_text(data.skip(3));
        law_base64_shape(data.skip(3));
        assert forall|i: int| 0 <= i < base64_text(data).len() implies is_base64_char(
            #[trigger] base64_text(data)[i],
        ) by {
            if i >= 4 {
                assert(base64_text(data)[i] == later[i - 4]);
            }
        }
    }
}

proof fn lemma_digits_differ(m: int, n: int)
    requires
        0 <= m < 64,
        0 <= n < 64,
    ensures
        base64_digit(m) == base64_digit(n) ==> m == n,
        base64_digit(m) != '=',
{
}

/// Data can be read back from its Base64 text: no other data has the same.
pub proof fn law_base64_is_injective(one: Seq<u8>, other: Seq<u8>)
    requires
        base64_text(one) == base64_text(other),
    ensures
        one == other,
    decreases one.len(),
{
    law_base64_shape(one);
    law_base64_shape(other);
    let text = base64_text(one);
    if one.len() > 0 && other.len() > 0 {
        let (a, b, c) = (one[0] as int, one[1] as int, one[2] as int);
        let (x, y, z) = (other[0] as int, other[1] as int, other[2] as int);
        lemma_digits_differ(a / 4, x / 4);
        lemma_digits_differ(a % 4 * 16, x % 4 * 16);
        lemma_digits_differ(a % 4 * 16 + b / 16, x % 4 * 16 + y / 16);
        lemma_digits_differ(b % 16 * 4, y % 16 * 4);
        lemma_digits_differ(b % 16 * 4 + c / 64, y % 16 * 4 + z / 64);
        lemma_digits_differ(c % 64, z % 64);
        if one.len() >= 3 && other.len() >= 3 {
            assert(text.skip(4) =~= base64_text(one.skip(3)));
            assert(text.skip(4) =~= base64_text(other.skip(3)));
            law_base64_is_injective(one.skip(3), other.skip(3));
            assert(text[0] == base64_digit(a / 4) && text[0] == base64_digit(x / 4));
            assert(text[1] == base64_digit(a % 4 * 16 + b / 16));
            assert(text[1] == base64_digit(x % 4 * 16 + y / 16));
            assert(text[2] == base64_digit(b % 16 * 4 + c / 64));
            assert(text[2] == base64_digit(y % 16 * 4 + z / 64));
            assert(text[3] == base64_digit(c % 64) && text[3] == base64_digit(z % 64));
            assert(a == x && b == y && c == z);
            assert(one =~= one.take(3) + one.skip(3));
            assert(other =~= other.take(3) + other.skip(3));
            assert(one.take(3) =~= other.take(3));
        } else {
            assert(text[2] == base64_text(other)[2]);
            assert(text[3] == base64_text(other)[3]);
            assert(one.len() == other.len());
            assert(one =~= other);
        }
    } else {
        assert(one =~= other);
    }
}

/// The UTF-8 bytes of `text`.
pub(crate) fn bytes_of(text: &str) -> (bytes: Vec<u8>)
    ensures
        bytes@ == encode_utf8(text@),
{
    text.as_bytes_vec()
}

/// Text is encoded piece by piece.
pub(crate) proof fn lemma_encode_concat(one: Seq<char>, two: Seq<char>)
    ensures
        encode_utf8(one + two) == encode_utf8(one) + encode_utf8(two),
    decreases one.len(),
{
    if one.len() == 0 {
        assert(one + two =~= two);
        assert(encode_utf8(one) + encode_utf8(two) =~= encode_utf8(two));
    } else {
        assert((one + two).drop_first() =~= one.drop_first() + two);
        lemma_encode_concat(one.drop_first(), two);
        assert(encode_utf8(one + two) =~= encode_utf8(one) + encode_utf8(two));
    }
}

/// Whether the first line of `bytes` is `line`: valid UTF-8, which a line feed
/// ends.
pub open spec fn begins_with_line(bytes: Seq<u8>, line: Seq<u8>) -> bool {
    &&& valid_utf8(line)
    &&& !line.contains(10)
    &&& line.push(10).is_prefix_of(bytes)
}

/// Lossy text keeps a first line that is valid, whatever follows it.
pub(crate) proof fn lemma_lossy_line(bytes: Seq<u8>, text: Seq<char>, line: Seq<u8>)
    requires
        lossy_text_of(bytes, text),
        begins_with_line(bytes, line),
    ensures
        decode_utf8(line).push('\n').is_prefix_of(text),
        !decode_utf8(line).contains('\n'),
{
    let chars = decode_utf8(line);
    let feed = seq!['\n'];
    let ended = line.push(10);
    decode_utf8_encode_utf8(line);
    is_ascii_chars_encode_utf8(feed);
    assert(feed[0] as u8 == encode_utf8(feed)[0]);
    assert(encode_utf8(feed) =~= seq![10u8]);
    lemma_encode_concat(chars, feed);
    assert(chars + feed =~= chars.push('\n'));
    assert(encode_utf8(chars.push('\n')) =~= ended);
    encode_utf8_valid_utf8(chars.push('\n'));
    encode_utf8_decode_utf8(chars.push('\n'));
    lemma_lossy_beginning(bytes, text, ended);
    if chars.contains('\n') {
        let k = choose|k: int| 0 <= k < chars.len() && chars[k] == '\n';
        let before = chars.take(k);
        let after = chars.skip(k + 1);
        assert(chars =~= before + feed + after);
        lemma_encode_concat(before + feed, after);
        lemma_encode_concat(before, feed);
        assert(line[encode_utf8(before).len() as int] == 10);
    }
}

/// Lossy text keeps a valid beginning, whatever follows it.
pub(crate) proof fn lemma_lossy_beginning(bytes: Seq<u8>, text: Seq<char>, head: Seq<u8>)
    requires
        lossy_text_of(bytes, text),
        valid_utf8(head),
        head.is_prefix_of(bytes),
    ensures
        decode_utf8(head).is_prefix_of(text),
{
    assert(bytes.subrange(0, head.len() as int) =~= head);
    assert(partial_valid_utf8(bytes, head.len() as int));
}

/// Lossy text keeps a valid beginning and replaces what is invalid after it.
pub(crate) proof fn lemma_lossy_break(bytes: Seq<u8>, text: Seq<char>, head: Seq<u8>)
    requires
        lossy_text_of(bytes, text),
        valid_utf8(head),
        head.is_prefix_of(bytes),
        head.len() < bytes.len(),
        !valid_first_scalar(bytes.subrange(head.len() as int, bytes.len() as int)),
    ensures
        decode_utf8(head).is_prefix_of(text),
        decode_utf8(head).len() < text.len(),
        text[decode_utf8(head).len() as int] == '\u{FFFD}',
{
    assert(bytes.subrange(0, head.len() as int) =~= head);
    assert(partial_valid_utf8(bytes, head.len() as int));
}

/// The scalar that follows a valid prefix decodes to one more character.
proof fn lemma_next_scalar(bytes: Seq<u8>, n: int)
    requires
        partial_valid_utf8(bytes, n),
        valid_first_scalar(bytes.subrange(n, bytes.len() as int)),
    ensures
        ({
            let rest = bytes.subrange(n, bytes.len() as int);
            let longer = bytes.subrange(0, n + length_of_first_scalar(rest));
            let next = decode_first_scalar(rest) as char;
            &&& decode_utf8(longer) == decode_utf8(bytes.subrange(0, n)).push(next)
            &&& encode_scalar(next as u32) == rest.subrange(0, length_of_first_scalar(rest))
        }),
{
    let rest = bytes.subrange(n, bytes.len() as int);
    let m = n + length_of_first_scalar(rest);
    let longer = bytes.subrange(0, m);
    partial_valid_utf8_extend(bytes, n);
    assert(partial_valid_utf8(bytes, m));
    assert(longer[n] == rest[0]);
    is_char_boundary_iff_not_is_continuation_byte(longer, n);
    assert(is_char_boundary(longer, n));
    decode_utf8_split(longer, n);
    assert(longer.subrange(0, n) =~= bytes.subrange(0, n));
    let one = longer.subrange(n, m);
    assert(one =~= rest.subrange(0, length_of_first_scalar(rest)));
    valid_utf8_split(longer, n);
    decode_utf8_first_scalar(one);
    assert(pop_first_scalar(one) =~= seq![]);
    assert(decode_utf8(pop_first_scalar(one)) =~= seq![]);
    assert(decode_utf8(one) =~= seq![decode_first_scalar(rest) as char]);
}

/// Lossy text begins with an ASCII prefix exactly when the bytes do.
pub(crate) proof fn lemma_lossy_ascii_prefix(bytes: Seq<u8>, text: Seq<char>, prefix: Seq<char>)
    requires
        lossy_text_of(bytes, text),
        is_ascii_chars(prefix),
    ensures
        prefix.is_prefix_of(text) <==> encode_utf8(prefix).is_prefix_of(bytes),
    decreases prefix.len(),
{
    let code = encode_utf8(prefix);
    is_ascii_chars_encode_utf8(prefix);
    if code.is_prefix_of(bytes) {
        let n = code.len() as int;
        assert(bytes.subrange(0, n) =~= code);
        encode_utf8_valid_utf8(prefix);
        encode_utf8_decode_utf8(prefix);
        assert(partial_valid_utf8(bytes, n));
    }
    if prefix.is_prefix_of(text) && prefix.len() > 0 {
        let shorter = prefix.drop_last();
        let n = shorter.len() as int;
        is_ascii_chars_encode_utf8(shorter);
        assert(text.subrange(0, n) =~= shorter);
        lemma_lossy_ascii_prefix(bytes, text, shorter);
        let short_code = encode_utf8(shorter);
        assert(bytes.subrange(0, n) =~= short_code);
        encode_utf8_valid_utf8(shorter);
        encode_utf8_decode_utf8(shorter);
        assert(partial_valid_utf8(bytes, n));
        let rest = bytes.subrange(n, bytes.len() as int);
        assert(text[n] == prefix[n]);
        assert(rest.len() > 0);
        assert(valid_first_scalar(rest));
        let m = n + length_of_first_scalar(rest);
        partial_valid_utf8_extend(bytes, n);
        assert(partial_valid_utf8(bytes, m));
        lemma_next_scalar(bytes, n);
        assert(text[n] == decode_utf8(bytes.subrange(0, m))[n]);
        let c = prefix[n] as u32;
        assert(leading_byte_width_1(c) == c as u8) by (bit_vector)
            requires
                has_width_1_encoding(c),
        ;
        assert(encode_scalar(c) =~= seq![c as u8]);
        let next = decode_first_scalar(rest) as char;
        assert(decode_utf8(bytes.subrange(0, m)).len() == n + 1);
        assert(next == prefix[n]);
        let one = rest.subrange(0, length_of_first_scalar(rest));
        assert(one == seq![c as u8]);
        assert(one[0] == rest[0]);
        assert forall|i: int| 0 <= i < n implies code[i] == bytes[i] by {
            assert(prefix[i] == shorter[i]);
            assert(code[i] == prefix[i] as u8);
            assert(short_code[i] == shorter[i] as u8);
            assert(bytes.subrange(0, n)[i] == short_code[i]);
        }
        assert(code[n] == prefix[n] as u8);
        assert(code =~= bytes.subrange(0, n + 1));
    }
}

proof fn lemma_six_bits(n: int)
    requires
        0 <= n < 64,
    ensures
        reading::six_bits(base64_digit(n)) == Some(n),
{
}

proof fn lemma_group_of_three(a: u8, b: u8, c: u8)
    ensures
        reading::base64_group(
            seq![
                base64_digit(a as int / 4),
                base64_digit(a as int % 4 * 16 + b as int / 16),
                base64_digit(b as int % 16 * 4 + c as int / 64),
                base64_digit(c as int % 64),
            ],
        ) == Some(seq![a, b, c]),
{
    reveal(reading::base64_group);
    let p = a as int / 4;
    let q = a as int % 4 * 16 + b as int / 16;
    let r = b as int % 16 * 4 + c as int / 64;
    let s = c as int % 64;
    lemma_six_bits(p);
    lemma_six_bits(q);
    lemma_six_bits(r);
    lemma_six_bits(s);
    lemma_bits_of_three(a, b, c);
}

proof fn lemma_bits_of_three(a: u8, b: u8, c: u8)
    ensures
        ({
            let p = a as int / 4;
            let q = a as int % 4 * 16 + b as int / 16;
            let r = b as int % 16 * 4 + c as int / 64;
            let bits = ((p * 64 + q) * 64 + r) * 64 + c as int % 64;
            &&& bits / 65536 == a
            &&& bits / 256 % 256 == b
            &&& bits % 256 == c
        }),
{
    let (a1, a2) = (a as int / 4, a as int % 4);
    let (b1, b2) = (b as int / 16, b as int % 16);
    let (c1, c2) = (c as int / 64, c as int % 64);
    assert(a == 4 * a1 + a2 && b == 16 * b1 + b2 && c == 64 * c1 + c2);
    let q = a2 * 16 + b1;
    let r = b2 * 4 + c1;
    let bits = ((a1 * 64 + q) * 64 + r) * 64 + c2;
    assert(bits == 65536 * a + 256 * b + c);
    assert(bits / 65536 == a) by (nonlinear_arith)
        requires
            bits == 65536 * a + 256 * b + c,
    ;
    assert(bits / 256 == 256 * a + b) by (nonlinear_arith)
        requires
            bits == 65536 * a + 256 * b + c,
    ;
    assert(bits % 256 == c) by (nonlinear_arith)
        requires
            bits == 65536 * a + 256 * b + c,
    ;
    assert((256 * a + b) % 256 == b) by (nonlinear_arith);
}

proof fn lemma_group_of_two(a: u8, b: u8)
    ensures
        reading::base64_group(
            seq![
                base64_digit(a as int / 4),
                base64_digit(a as int % 4 * 16 + b as int / 16),
                base64_digit(b as int % 16 * 4),
                '=',
            ],
        ) == Some(seq![a, b]),
{
    reveal(reading::base64_group);
    let p = a as int / 4;
    let q = a as int % 4 * 16 + b as int / 16;
    let r = b as int % 16 * 4;
    lemma_six_bits(p);
    lemma_six_bits(q);
    lemma_six_bits(r);
    let bits = (p * 64 + q) * 64 + r;
    assert(bits == a * 1024 + b * 4);
    assert(bits / 1024 == a && bits / 4 % 256 == b);
}

proof fn lemma_group_of_one(a: u8)
    ensures
        reading::base64_group(
            seq![base64_digit(a as int / 4), base64_digit(a as int % 4 * 16), '=', '='],
        ) == Some(seq![a]),
{
    reveal(reading::base64_group);
    lemma_six_bits(a as int / 4);
    lemma_six_bits(a as int % 4 * 16);
}

/// Base64 text is read back as the data that it was made of.
pub proof fn law_base64_is_read_back(data: Seq<u8>)
    ensures
        reading::base64_data(base64_text(data)) == Some(data),
    decreases data.len(),
{
    let text = base64_text(data);
    assert(reading::base64_data(Seq::<char>::empty()) == Some(Seq::<u8>::empty()));
    if data.len() == 0 {
        assert(data =~= seq![]);
    } else if data.len() == 1 {
        lemma_group_of_one(data[0]);
        assert(text.take(4) =~= text);
        assert(text.skip(4) =~= seq![]);
        assert(seq![data[0]] + Seq::<u8>::empty() =~= data);
    } else if data.len() == 2 {
        lemma_group_of_two(data[0], data[1]);
        assert(text.take(4) =~= text);
        assert(text.skip(4) =~= seq![]);
        assert(seq![data[0], data[1]] + Seq::<u8>::empty() =~= data);
    } else {
        lemma_group_of_three(data[0], data[1], data[2]);
        law_base64_is_read_back(data.skip(3));
        assert(text.take(4) =~= seq![
            base64_digit(data[0] as int / 4),
            base64_digit(data[0] as int % 4 * 16 + data[1] as int / 16),
            base64_digit(data[1] as int % 16 * 4 + data[2] as int / 64),
            base64_digit(data[2] as int % 64),
        ]);
        assert(text.skip(4) =~= base64_text(data.skip(3)));
        assert(seq![data[0], data[1], data[2]] + data.skip(3) =~= data);
    }
}

} // verus!
