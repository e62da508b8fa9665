//! Text building blocks: decimal numbers, padding, C strings and lossy UTF-8.
use std::borrow::Cow;
use vstd::prelude::*;
use vstd::utf8::{
    decode_utf8, encode_scalar, encode_utf8, has_width_1_encoding, has_width_2_encoding,
    has_width_3_encoding, valid_utf8,
};

verus! {

/// The character of a decimal digit.
pub open spec fn digit_char(d: nat) -> char
    recommends
        d < 10,
{
    (48 + d) as char
}

/// The decimal representation of `n`, without leading zeros ("0" for zero).
pub open spec fn decimal(n: nat) -> Seq<char>
    decreases n,
{
    if n < 10 {
        seq![digit_char(n)]
    } else {
        decimal(n / 10).push(digit_char(n % 10))
    }
}

/// Whether `c` is one of the characters '0' to '9'.
pub open spec fn is_digit(c: char) -> bool {
    '0' <= c && c <= '9'
}

/// The number that a string of decimal digits reads as, most significant
/// digit first.
pub open spec fn numeral_value(s: Seq<char>) -> int
    decreases s.len(),
{
    if s.len() == 0 {
        0
    } else {
        numeral_value(s.drop_last()) * 10 + (s.last() as int - '0' as int)
    }
}

/// `decimal(n)` is the base-10 numeral of `n`: it is made of digits, it has
/// no leading zero (it is "0" only for zero), and read back as a number it
/// gives `n`. So it has as many digits as `n` needs, and for `n` of ten or
/// more it is the numeral of `n / 10` followed by the last digit of `n`.
pub proof fn lemma_decimal_is_numeral(n: nat)
    ensures
        decimal(n).len() >= 1,
        forall|i: int| 0 <= i < decimal(n).len() ==> is_digit(#[trigger] decimal(n)[i]),
        numeral_value(decimal(n)) == n,
        decimal(n)[0] == '0' ==> n == 0 && decimal(n).len() == 1,
        n < 10 ==> decimal(n).len() == 1,
        n >= 10 ==> decimal(n) == decimal(n / 10).push((('0' as int) + n % 10) as char),
    decreases n,
{
    if n < 10 {
        let s = decimal(n);
        assert(s.drop_last() =~= Seq::<char>::empty());
        assert(s.last() as int == '0' as int + n);
        assert(numeral_value(s.drop_last()) == 0);
        assert(numeral_value(s) == numeral_value(s.drop_last()) * 10 + (s.last() as int - '0' as int));
    } else {
        lemma_decimal_is_numeral(n / 10);
        let s = decimal(n);
        let d = decimal(n / 10);
        assert(s.drop_last() =~= d);
        assert(s.last() as int == '0' as int + n % 10);
        assert(s[0] == d[0]);
        assert(n / 10 * 10 + n % 10 == n);
        assert(numeral_value(s) == numeral_value(s.drop_last()) * 10 + (s.last() as int - '0' as int));
        assert(numeral_value(s) == (n / 10) as int * 10 + n % 10);
        assert forall|i: int| 0 <= i < s.len() implies is_digit(#[trigger] s[i]) by {
            if i < d.len() {
                assert(s[i] == d[i]);
            }
        }
    }
}

/// `s` left-aligned in a field of `width` characters: spaces fill the rest.
pub open spec fn pad_right(s: Seq<char>, width: nat) -> Seq<char> {
    if s.len() >= width {
        s
    } else {
        s + Seq::new((width - s.len()) as nat, |i: int| ' ')
    }
}

/// A padded field holds the text unchanged at its start, is as wide as the
/// field or as the text where the text is wider, and is spaces after the
/// text.
pub proof fn lemma_pad_right_layout(s: Seq<char>, width: nat)
    ensures
        pad_right(s, width).len() == (if s.len() >= width { s.len() } else { width }),
        forall|i: int| 0 <= i < s.len() ==> #[trigger] pad_right(s, width)[i] == s[i],
        forall|i: int|
            s.len() <= i < pad_right(s, width).len() ==> #[trigger] pad_right(s, width)[i] == ' ',
{
}

/// Position of the first NUL byte of `buf`, or its length when it holds none.
pub open spec fn nul_position(buf: Seq<u8>) -> int
    decreases buf.len(),
{
    if buf.len() == 0 {
        0
    } else if buf[0] == 0 {
        0
    } else {
        1 + nul_position(buf.drop_first())
    }
}

/// The bytes of `buf` before its first NUL byte.
pub open spec fn c_string(buf: Seq<u8>) -> Seq<u8> {
    buf.take(nul_position(buf))
}

// What `String::from_utf8_lossy` makes of `bytes`: the characters that the
// bytes encode, each ill-formed sequence replaced by U+FFFD.
pub uninterp spec fn utf8_lossy(bytes: Seq<u8>) -> Seq<char>;

/// Text of `bytes` read as UTF-8: their decoding where they are well-formed,
/// else what `String::from_utf8_lossy` makes of them.
pub open spec fn lossy_text(bytes: Seq<u8>) -> Seq<char> {
    if valid_utf8(bytes) {
        decode_utf8(bytes)
    } else {
        utf8_lossy(bytes)
    }
}

/// Text of a fixed-size buffer holding a NUL-terminated string.
pub open spec fn buffer_text(buf: Seq<u8>) -> Seq<char> {
    lossy_text(c_string(buf))
}

/// The UTF-8 encoding of `c` occurs somewhere in `bytes`.
pub open spec fn encoded_in(c: char, bytes: Seq<u8>) -> bool {
    exists|j: int|
        0 <= j && j + encode_scalar(c as u32).len() <= bytes.len() && #[trigger] bytes.subrange(
            j,
            j + encode_scalar(c as u32).len(),
        ) == encode_scalar(c as u32)
}

/// No character of `s` is NUL.
pub open spec fn no_nul(s: Seq<char>) -> bool {
    forall|i: int| 0 <= i < s.len() ==> s[i] != '\0'
}

/// `String::from_utf8_lossy`.
///
/// Trusted: the text is the named `utf8_lossy` of the bytes; where the bytes
/// are well-formed UTF-8 it is their decoding, as std documents. Std also
/// documents that each ill-formed sequence becomes one U+FFFD and the rest is
/// decoded, so the text has at most as many characters as there are bytes,
/// and each of its characters is U+FFFD or one whose encoding stands in the
/// bytes. Which sequences count as one ill-formed sequence is left to the
/// name.
#[verifier::external_body]
fn from_utf8_lossy(bytes: &[u8]) -> (r: Cow<'_, str>)
    ensures
        r@ == utf8_lossy(bytes@),
        valid_utf8(bytes@) ==> r@ == decode_utf8(bytes@),
        r@.len() <= bytes@.len(),
        forall|i: int|
            0 <= i < r@.len() ==> #[trigger] r@[i] == '\u{FFFD}' || encoded_in(r@[i], bytes@),
{
    String::from_utf8_lossy(bytes)
}

/// The characters of `s`, in order.
pub fn str_chars(s: &str) -> (r: Vec<char>)
    ensures
        r@ == s@,
{
    broadcast use vstd::string::axiom_spec_iter;
    let mut r: Vec<char> = Vec::new();
    for c in it: s.chars()
        invariant
            r@.len() == it.index(),
            forall|j: int| 0 <= j < it.index() ==> r@[j] == it.seq()[j],
            it.seq() == s@,
    {
        r.push(c);
    }
    assert(r@ =~= s@);
    r
}

/// `String` collected from characters (`FromIterator<&char>`).
///
/// Trusted: the string holds exactly the given characters in order.
#[verifier::external_body]
pub(crate) fn chars_to_string(chars: &[char]) -> (r: String)
    ensures
        r@ == chars@,
{
    chars.iter().collect()
}

/// Appends the characters of `s` to `buf`.
pub fn push_str(buf: &mut Vec<char>, s: &str)
    ensures
        final(buf)@ == old(buf)@ + s@,
{
    let mut tail = str_chars(s);
    buf.append(&mut tail);
}

/// Appends the decimal representation of `n` to `buf`.
pub fn push_decimal(buf: &mut Vec<char>, n: u64)
    ensures
        final(buf)@ == old(buf)@ + decimal(n as nat),
    decreases n,
{
    if n >= 10 {
        push_decimal(buf, n / 10);
    }
    let d: u8 = (n % 10) as u8;
    let c: char = (d + 48) as char;
    buf.push(c);
}

/// The decimal representation of `n`.
pub fn decimal_chars(n: u64) -> (r: Vec<char>)
    ensures
        r@ == decimal(n as nat),
        r@.len() >= 1,
        forall|i: int| 0 <= i < r@.len() ==> is_digit(#[trigger] r@[i]),
        numeral_value(r@) == n,
        r@[0] == '0' ==> n == 0 && r@.len() == 1,
{
    let mut r: Vec<char> = Vec::new();
    push_decimal(&mut r, n);
    proof {
        lemma_decimal_is_numeral(n as nat);
    }
    r
}

/// Appends `s` to `buf`, followed by spaces up to `width` characters.
pub fn push_padded(buf: &mut Vec<char>, s: &Vec<char>, width: usize)
    ensures
        final(buf)@ == old(buf)@ + pad_right(s@, width as nat),
{
    let ghost start = buf@;
    let mut i: usize = 0;
    while i < s.len()
        invariant
            i <= s.len(),
            buf@ == start + s@.take(i as int),
        decreases s.len() - i,
    {
        buf.push(s[i]);
        i = i + 1;
        assert(s@.take(i as int) == s@.take(i - 1).push(s@[i - 1]));
    }
    assert(s@.take(s.len() as int) == s@);
    let mut k: usize = s.len();
    while k < width
        invariant
            s.len() <= k <= width || (k == s.len() && width < s.len()),
            buf@ == start + s@ + Seq::new((k - s.len()) as nat, |j: int| ' '),
        decreases width - k,
    {
        buf.push(' ');
        k = k + 1;
        assert(Seq::new((k - s.len()) as nat, |j: int| ' ') == Seq::new(
            (k - 1 - s.len()) as nat,
            |j: int| ' ',
        ).push(' '));
    }
    if s.len() >= width {
        assert(Seq::new(0nat, |j: int| ' ') == Seq::<char>::empty());
        assert(start + s@ + Seq::new(0nat, |j: int| ' ') == start + s@);
    } else {
        assert(start + s@ + Seq::new((width - s.len()) as nat, |j: int| ' ') == start + (s@
            + Seq::new((width - s.len()) as nat, |j: int| ' ')));
    }
}

/// A buffer with no NUL byte is a string that fills the whole buffer.
pub proof fn lemma_c_string_without_nul(buf: Seq<u8>)
    requires
        forall|i: int| 0 <= i < buf.len() ==> buf[i] != 0,
    ensures
        nul_position(buf) == buf.len(),
        c_string(buf) == buf,
    decreases buf.len(),
{
    if buf.len() > 0 {
        let rest = buf.drop_first();
        assert forall|i: int| 0 <= i < rest.len() implies rest[i] != 0 by {
            assert(rest[i] == buf[i + 1]);
        }
        lemma_c_string_without_nul(rest);
    }
    assert(buf.take(buf.len() as int) =~= buf);
}

/// The string in a buffer ends at its first NUL byte: what follows it does
/// not count.
pub proof fn lemma_c_string_at_nul(buf: Seq<u8>, k: int)
    requires
        0 <= k < buf.len(),
        buf[k] == 0,
        forall|i: int| 0 <= i < k ==> buf[i] != 0,
    ensures
        nul_position(buf) == k,
        c_string(buf) == buf.take(k),
    decreases k,
{
    if k > 0 {
        let rest = buf.drop_first();
        assert forall|i: int| 0 <= i < k - 1 implies rest[i] != 0 by {
            assert(rest[i] == buf[i + 1]);
        }
        assert(buf[0] != 0);
        lemma_c_string_at_nul(rest, k - 1);
    }
}

/// Only the NUL character is encoded with a zero byte.
proof fn lemma_encode_scalar_nonzero(c: char)
    requires
        c != '\0',
    ensures
        forall|j: int|
            0 <= j < encode_scalar(c as u32).len() ==> #[trigger] encode_scalar(c as u32)[j] != 0,
{
    vstd::utf8::char_is_scalar(c);
    let v = c as u32;
    assert(v != 0);
    if has_width_1_encoding(v) {
        assert((v & 0x7F) as u8 != 0) by (bit_vector)
            requires
                1 <= v <= 0x7F,
        ;
    } else {
        assert((0x80 | (v & 0x3F) as u8) != 0u8) by (bit_vector);
        assert((0x80 | ((v >> 6) & 0x3F) as u8) != 0u8) by (bit_vector);
        assert((0x80 | ((v >> 12) & 0x3F) as u8) != 0u8) by (bit_vector);
        assert((0xC0 | ((v >> 6) & 0x1F) as u8) != 0u8) by (bit_vector);
        assert((0xE0 | ((v >> 12) & 0x0F) as u8) != 0u8) by (bit_vector);
        assert((0xF0 | ((v >> 18) & 0x7) as u8) != 0u8) by (bit_vector);
    }
}

/// The UTF-8 encoding of text without a NUL character holds no zero byte.
pub proof fn lemma_encode_utf8_nonzero(chars: Seq<char>)
    requires
        forall|i: int| 0 <= i < chars.len() ==> chars[i] != '\0',
    ensures
        forall|j: int| 0 <= j < encode_utf8(chars).len() ==> encode_utf8(chars)[j] != 0,
    decreases chars.len(),
{
    if chars.len() > 0 {
        let rest = chars.drop_first();
        assert forall|i: int| 0 <= i < rest.len() implies rest[i] != '\0' by {
            assert(rest[i] == chars[i + 1]);
        }
        lemma_encode_utf8_nonzero(rest);
        lemma_encode_scalar_nonzero(chars[0]);
        let head = encode_scalar(chars[0] as u32);
        let tail = encode_utf8(rest);
        assert(encode_utf8(chars) == head + tail);
        assert forall|j: int| 0 <= j < encode_utf8(chars).len() implies encode_utf8(chars)[j]
            != 0 by {
            if j < head.len() {
                assert(encode_utf8(chars)[j] == head[j]);
            } else {
                assert(encode_utf8(chars)[j] == tail[j - head.len()]);
            }
        }
    }
}

/// Joining texts without NUL gives a text without NUL.
pub proof fn lemma_no_nul_concat(a: Seq<char>, b: Seq<char>)
    requires
        no_nul(a),
        no_nul(b),
    ensures
        no_nul(a + b),
{
    assert forall|i: int| 0 <= i < (a + b).len() implies (a + b)[i] != '\0' by {
        if i < a.len() {
            assert((a + b)[i] == a[i]);
        } else {
            assert((a + b)[i] == b[i - a.len()]);
        }
    }
}

/// Decimal digits are not NUL.
pub proof fn lemma_decimal_no_nul(n: nat)
    ensures
        no_nul(decimal(n)),
    decreases n,
{
    if n >= 10 {
        lemma_decimal_no_nul(n / 10);
        let d = decimal(n / 10);
        assert(digit_char(n % 10) != '\0');
        assert forall|i: int| 0 <= i < decimal(n).len() implies decimal(n)[i] != '\0' by {
            if i < d.len() {
                assert(decimal(n)[i] == d[i]);
            }
        }
    } else {
        assert(digit_char(n) != '\0');
    }
}

/// Padding a text without NUL gives a text without NUL.
pub proof fn lemma_pad_right_no_nul(s: Seq<char>, width: nat)
    requires
        no_nul(s),
    ensures
        no_nul(pad_right(s, width)),
{
    if s.len() < width {
        let spaces = Seq::new((width - s.len()) as nat, |i: int| ' ');
        assert(no_nul(spaces));
        lemma_no_nul_concat(s, spaces);
    }
}

/// NUL is encoded only where the bytes hold a zero byte.
pub proof fn lemma_nul_needs_zero_byte(bytes: Seq<u8>)
    requires
        forall|j: int| 0 <= j < bytes.len() ==> bytes[j] != 0,
    ensures
        !encoded_in('\0', bytes),
{
    let z: u32 = '\0' as u32;
    assert(z == 0);
    assert((z & 0x7F) as u8 == 0u8) by (bit_vector)
        requires
            z == 0,
    ;
    let e = encode_scalar(z);
    assert(e =~= seq![0u8]);
    if encoded_in('\0', bytes) {
        let j = choose|j: int|
            0 <= j && j + e.len() <= bytes.len() && #[trigger] bytes.subrange(j, j + e.len()) == e;
        assert(bytes.subrange(j, j + 1)[0] == bytes[j]);
    }
}

/// Text without NUL, written out as UTF-8 and read back as a buffer, is the
/// same text.
pub proof fn lemma_buffer_text_of_text(t: Seq<char>)
    requires
        no_nul(t),
    ensures
        buffer_text(encode_utf8(t)) == t,
{
    lemma_encode_utf8_nonzero(t);
    lemma_c_string_without_nul(encode_utf8(t));
    vstd::utf8::encode_utf8_valid_utf8(t);
    vstd::utf8::encode_utf8_decode_utf8(t);
}

/// Length of the NUL-terminated string at the start of `buf`: the position of
/// its first NUL byte, or the whole buffer when there is none.
pub fn nul_terminated_len(buf: &[u8]) -> (r: usize)
    ensures
        r == nul_position(buf@),
        r <= buf@.len(),
        forall|i: int| 0 <= i < r ==> buf@[i] != 0,
        r < buf@.len() ==> buf@[r as int] == 0,
{
    let mut i: usize = 0;
    assert(buf@.skip(0) == buf@);
    while i < buf.len()
        invariant
            i <= buf@.len(),
            forall|j: int| 0 <= j < i ==> buf@[j] != 0,
            nul_position(buf@) == i + nul_position(buf@.skip(i as int)),
        decreases buf.len() - i,
    {
        if buf[i] == 0 {
            return i;
        }
        assert(buf@.skip(i as int).drop_first() == buf@.skip(i + 1));
        i = i + 1;
    }
    i
}

/// Text of a buffer that holds a NUL-terminated string: the bytes before the
/// first NUL (all of them when there is none), decoded as UTF-8 with
/// ill-formed sequences replaced. The text holds no NUL and no more
/// characters than the buffer has bytes, so reading it back as a buffer
/// gives it again.
pub fn bytes_to_str(buf: &[u8]) -> (r: Cow<'_, str>)
    ensures
        r@ == buffer_text(buf@),
        r@.len() <= buf@.len(),
        no_nul(r@),
        buffer_text(encode_utf8(r@)) == r@,
{
    let end = nul_terminated_len(buf);
    let text = vstd::slice::slice_subrange(buf, 0, end);
    assert(text@ == c_string(buf@));
    let r = from_utf8_lossy(text);
    proof {
        lemma_nul_needs_zero_byte(text@);
        assert forall|i: int| 0 <= i < r@.len() implies r@[i] != '\0' by {
            if r@[i] == '\0' {
                assert(r@[i] == '\u{FFFD}' || encoded_in(r@[i], text@));
            }
        }
        lemma_buffer_text_of_text(r@);
    }
    r
}

/// The characters of `bytes_to_str(buf)`.
pub fn buffer_chars(buf: &[u8]) -> (r: Vec<char>)
    ensures
        r@ == buffer_text(buf@),
        r@.len() <= buf@.len(),
        no_nul(r@),
{
    let text = bytes_to_str(buf);
    match &text {
        Cow::Borrowed(s) => str_chars(s),
        Cow::Owned(s) => str_chars(s.as_str()),
    }
}

} // verus!
