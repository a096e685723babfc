//! What a client sees of a file: text where the bytes read as text, hexadecimal
//! digits where they do not.

use vstd::prelude::*;
use vstd::slice::slice_subrange;

use crate::text::chars_of;

verus! {

/// How the content of a file is written.
#[derive(Clone, Copy, Debug, PartialEq, Eq, Structural)]
pub enum Encoding {
    /// As text.
    Utf8,
    /// As hexadecimal digits.
    Binary,
}

impl Encoding {
    /// The name that the client is given.
    pub fn label(&self) -> (r: &'static str)
        ensures
            r@ == (match *self {
                Encoding::Utf8 => "utf8"@,
                Encoding::Binary => "binary"@,
            }),
    {
        match *self {
            Encoding::Utf8 => "utf8",
            Encoding::Binary => "binary",
        }
    }
}

/// The answer to a read.
pub struct ReadOutput {
    pub encoding: Encoding,
    pub content: String,
    /// The file is longer than what is shown.
    pub truncated: bool,
    /// The length of the whole file.
    pub total_size: u64,
}

/// A control character: category Cc of Unicode.
pub open spec fn is_control(c: char) -> bool {
    c <= '\u{1f}' || ('\u{7f}' <= c && c <= '\u{9f}')
}

/// A character that belongs in a text.
pub open spec fn is_printable(c: char) -> bool {
    !is_control(c) || c == '\n' || c == '\r' || c == '\t'
}

/// The number of characters that belong in a text.
pub open spec fn printable_count(s: Seq<char>) -> nat
    decreases s.len(),
{
    if s.len() == 0 {
        0
    } else {
        printable_count(s.drop_last()) + if is_printable(s.last()) {
            1nat
        } else {
            0nat
        }
    }
}

/// More than nine tenths of the characters belong in a text. Nothing at all does not
/// read as text.
pub open spec fn reads_as_text(s: Seq<char>) -> bool {
    10 * printable_count(s) > 9 * s.len()
}

/// Tells whether a character belongs in a text.
pub fn printable(c: char) -> (r: bool)
    ensures
        r == is_printable(c),
{
    let control: bool = c <= '\u{1f}' || ('\u{7f}' <= c && c <= '\u{9f}');
    !control || c == '\n' || c == '\r' || c == '\t'
}

/// Tells whether more than nine tenths of the characters belong in a text.
pub fn is_text(text: &str) -> (r: bool)
    ensures
        r == reads_as_text(text@),
{
    let chars: Vec<char> = chars_of(text);
    let mut count: usize = 0;
    let mut i: usize = 0;
    while i < chars.len()
        invariant
            chars@ == text@,
            i <= chars@.len(),
            count <= i,
            count == printable_count(text@.take(i as int)),
        decreases chars@.len() - i,
    {
        proof {
            assert(text@.take(i + 1).drop_last() == text@.take(i as int));
        }
        if printable(chars[i]) {
            count += 1;
        }
        i += 1;
    }
    proof {
        assert(text@.take(text@.len() as int) == text@);
    }
    let total: usize = chars.len();
    10 * (count as u128) > 9 * (total as u128)
}

/// The lower-case hexadecimal digit for a value below sixteen.
pub open spec fn hex_digit(d: int) -> char {
    if d < 10 {
        (d + 48) as char
    } else {
        (d + 87) as char
    }
}

/// Bytes as hexadecimal digits, two for each.
pub open spec fn hex_text(bytes: Seq<u8>) -> Seq<char> {
    Seq::new(
        2 * bytes.len(),
        |i: int|
            if i % 2 == 0 {
                hex_digit(bytes[i / 2] as int / 16)
            } else {
                hex_digit(bytes[i / 2] as int % 16)
            },
    )
}

/// The lower-case hexadecimal digit for a value below sixteen.
fn digit_char(d: u8) -> (r: char)
    requires
        d < 16,
    ensures
        r == hex_digit(d as int),
{
    if d < 10 {
        (d + 48) as char
    } else {
        (d + 87) as char
    }
}

/// Bytes as hexadecimal digits, two for each.
pub fn hex_of(bytes: &[u8]) -> (r: String)
    ensures
        r@ == hex_text(bytes@),
{
    let mut r: String = String::new();
    let mut i: usize = 0;
    while i < bytes.len()
        invariant
            i <= bytes@.len(),
            r@ == hex_text(bytes@.take(i as int)),
        decreases bytes@.len() - i,
    {
        let b: u8 = bytes[i];
        let ghost before = r@;
        r.push(digit_char(b / 16));
        r.push(digit_char(b % 16));
        proof {
            let longer = hex_text(bytes@.take(i + 1));
            assert(r@.len() == longer.len());
            assert forall|k: int| 0 <= k < longer.len() implies r@[k] == longer[k] by {
                if k < 2 * i {
                    assert(k / 2 < i);
                    assert(bytes@.take(i as int)[k / 2] == bytes@.take(i + 1)[k / 2]);
                } else {
                    assert(k / 2 == i);
                }
            }
            assert(r@ =~= longer);
        }
        i += 1;
    }
    proof {
        assert(bytes@.take(bytes@.len() as int) == bytes@);
    }
    r
}

/// What `encoding_rs` makes of bytes that are taken for Shift_JIS.
pub uninterp spec fn shift_jis_text(bytes: Seq<u8>) -> Seq<char>;

/// Every byte is one of ASCII.
pub open spec fn is_ascii(bytes: Seq<u8>) -> bool {
    forall|i: int| 0 <= i < bytes.len() ==> #[trigger] bytes[i] < 128
}

/// The characters with the given codes.
pub open spec fn ascii_text(bytes: Seq<u8>) -> Seq<char> {
    bytes.map_values(|b: u8| b as char)
}

/// `encoding_rs::SHIFT_JIS.decode`: the bytes as text, by way of the byte order
/// mark where they start with one and as Shift_JIS where they do not; what cannot
/// be decoded is replaced. The result is given a name. Bytes of ASCII alone come
/// back as they are. The bound keeps the decoder's buffer within what can be
/// allocated.
#[verifier::external_body]
fn decode_shift_jis(bytes: &[u8]) -> (r: String)
    requires
        bytes@.len() <= isize::MAX / 8,
    ensures
        r@ == shift_jis_text(bytes@),
        is_ascii(bytes@) ==> r@ == ascii_text(bytes@),
{
    encoding_rs::SHIFT_JIS.decode(bytes).0.into_owned()
}

/// The part of a file that is shown.
pub open spec fn shown(bytes: Seq<u8>, max_bytes: int) -> Seq<u8> {
    if bytes.len() > max_bytes {
        bytes.take(max_bytes)
    } else {
        bytes
    }
}

/// The answer to a read, given the part that is shown and what it decodes to.
pub fn present(part: &[u8], decoded: String, truncated: bool, total_size: u64) -> (r: ReadOutput)
    ensures
        r.truncated == truncated,
        r.total_size == total_size,
        reads_as_text(decoded@) ==> r.encoding == Encoding::Utf8 && r.content@ == decoded@,
        !reads_as_text(decoded@) ==> r.encoding == Encoding::Binary && r.content@ == hex_text(
            part@,
        ),
{
    if is_text(decoded.as_str()) {
        ReadOutput { encoding: Encoding::Utf8, content: decoded, truncated, total_size }
    } else {
        ReadOutput { encoding: Encoding::Binary, content: hex_of(part), truncated, total_size }
    }
}

/// A text in ASCII: not empty, and without control characters, line breaks and tabs
/// aside.
pub open spec fn is_plain_text(bytes: Seq<u8>) -> bool {
    &&& bytes.len() > 0
    &&& is_ascii(bytes)
    &&& forall|i: int| 0 <= i < bytes.len() ==> is_printable(#[trigger] bytes[i] as char)
}

/// `r` is the answer to a read of at most `max_bytes` bytes of a file.
pub open spec fn answers(r: ReadOutput, bytes: Seq<u8>, max_bytes: int) -> bool {
    let part = shown(bytes, max_bytes);
    let text = shift_jis_text(part);
    &&& r.truncated == (bytes.len() > max_bytes)
    &&& r.total_size == bytes.len()
    &&& if reads_as_text(text) {
        r.encoding == Encoding::Utf8 && r.content@ == text
    } else {
        r.encoding == Encoding::Binary && r.content@ == hex_text(part)
    }
}

/// The answer to a read of at most `max_bytes` bytes. ASCII decodes to itself, so plain
/// text in ASCII is shown as it is. The part that is shown must be small enough for its
/// text to be allocated.
pub fn read_output(bytes: &[u8], max_bytes: usize) -> (r: ReadOutput)
    requires
        shown(bytes@, max_bytes as int).len() <= isize::MAX / 8,
    ensures
        answers(r, bytes@, max_bytes as int),
        ({
            let part = shown(bytes@, max_bytes as int);
            &&& is_ascii(part) ==> shift_jis_text(part) == ascii_text(part)
            &&& is_plain_text(part) ==> r.encoding == Encoding::Utf8 && r.content@ == ascii_text(
                part,
            )
            &&& (forall|i: int|
                0 <= i < part.len() ==> (#[trigger] part[i] < 32 || part[i] == 127) && part[i]
                    != 9 && part[i] != 10 && part[i] != 13) ==> r.encoding == Encoding::Binary
                && r.content@ == hex_text(part)
        }),
{
    let total_size: u64 = bytes.len() as u64;
    let truncated: bool = bytes.len() > max_bytes;
    let end: usize = if truncated {
        max_bytes
    } else {
        bytes.len()
    };
    let part: &[u8] = slice_subrange(bytes, 0, end);
    proof {
        assert(part@ =~= shown(bytes@, max_bytes as int));
    }
    let decoded: String = decode_shift_jis(part);
    proof {
        if is_plain_text(part@) {
            assert forall|i: int| 0 <= i < decoded@.len() implies is_printable(
                #[trigger] decoded@[i],
            ) by {
                assert(is_printable(part@[i] as char));
            }
            law_clean_text_is_shown_as_text(decoded@);
        }
        if forall|i: int|
            0 <= i < part@.len() ==> (#[trigger] part@[i] < 32 || part@[i] == 127) && part@[i] != 9
                && part@[i] != 10 && part@[i] != 13 {
            assert(is_ascii(part@));
            assert forall|i: int| 0 <= i < decoded@.len() implies !is_printable(
                #[trigger] decoded@[i],
            ) by {
                assert(decoded@[i] as u32 == part@[i]);
            }
            lemma_none_printable(decoded@);
        }
    }
    present(part, decoded, truncated, total_size)
}

/// Hexadecimal digits tell the bytes: two files that are written with the same
/// digits are the same.
pub proof fn law_hex_is_faithful(a: Seq<u8>, b: Seq<u8>)
    requires
        hex_text(a) == hex_text(b),
    ensures
        a == b,
{
    assert(hex_text(a).len() == 2 * a.len());
    assert(hex_text(b).len() == 2 * b.len());
    assert forall|i: int| 0 <= i < a.len() implies a[i] == b[i] by {
        let j = 2 * i;
        assert(j / 2 == i && j % 2 == 0);
        assert((j + 1) / 2 == i && (j + 1) % 2 == 1);
        assert(hex_text(a)[j] == hex_text(b)[j]);
        assert(hex_text(a)[j + 1] == hex_text(b)[j + 1]);
        let x = a[i] as int;
        let y = b[i] as int;
        assert(hex_text(a)[j] == hex_digit(x / 16));
        assert(hex_text(b)[j] == hex_digit(y / 16));
        assert(hex_text(a)[j + 1] == hex_digit(x % 16));
        assert(hex_text(b)[j + 1] == hex_digit(y % 16));
        lemma_hex_digits_differ(x / 16, y / 16);
        lemma_hex_digits_differ(x % 16, y % 16);
        assert(x == 16 * (x / 16) + x % 16);
        assert(y == 16 * (y / 16) + y % 16);
    }
    assert(a =~= b);
}

/// Different values have different digits.
proof fn lemma_hex_digits_differ(d: int, e: int)
    requires
        0 <= d < 16,
        0 <= e < 16,
        hex_digit(d) == hex_digit(e),
    ensures
        d == e,
{
}

/// A file that is not empty and decodes without control characters, line breaks and
/// tabs aside, is shown as text.
pub proof fn law_clean_text_is_shown_as_text(s: Seq<char>)
    requires
        s.len() > 0,
        forall|i: int| 0 <= i < s.len() ==> is_printable(#[trigger] s[i]),
    ensures
        reads_as_text(s),
{
    lemma_all_printable(s);
}

proof fn lemma_all_printable(s: Seq<char>)
    requires
        forall|i: int| 0 <= i < s.len() ==> is_printable(#[trigger] s[i]),
    ensures
        printable_count(s) == s.len(),
    decreases s.len(),
{
    if s.len() > 0 {
        lemma_all_printable(s.drop_last());
    }
}

/// What is shown is a prefix of the file, no longer than was asked for, and the whole
/// file where it fits.
pub proof fn law_shown_is_a_prefix(bytes: Seq<u8>, max_bytes: int)
    requires
        0 <= max_bytes,
    ensures
        shown(bytes, max_bytes).is_prefix_of(bytes),
        shown(bytes, max_bytes).len() <= max_bytes,
        bytes.len() <= max_bytes ==> shown(bytes, max_bytes) == bytes,
{
}

/// Asking for more never shows less. Both answers tell the length of the whole file;
/// each is cut off exactly where the file is longer than was asked for, so that a file
/// of just that length is not, and the larger one is cut off only where the smaller one
/// is.
pub proof fn law_a_larger_bound_shows_more(
    bytes: Seq<u8>,
    less: int,
    more: int,
    a: ReadOutput,
    b: ReadOutput,
)
    requires
        0 <= less <= more,
        answers(a, bytes, less),
        answers(b, bytes, more),
    ensures
        a.total_size == bytes.len(),
        b.total_size == bytes.len(),
        a.truncated == (a.total_size > less),
        b.truncated == (b.total_size > more),
        b.truncated ==> a.truncated,
        shown(bytes, less).is_prefix_of(shown(bytes, more)),
{
    assert(shown(bytes, less) =~= shown(bytes, more).take(shown(bytes, less).len() as int));
}

/// The answer tells the length of the bytes that it was made from, and its content is
/// made from a prefix of them.
pub proof fn law_content_comes_of_a_prefix(bytes: Seq<u8>, max_bytes: int, r: ReadOutput)
    requires
        0 <= max_bytes,
        answers(r, bytes, max_bytes),
    ensures
        r.total_size == bytes.len(),
        shown(bytes, max_bytes).is_prefix_of(bytes),
        r.content@ == shift_jis_text(shown(bytes, max_bytes)) || r.content@ == hex_text(
            shown(bytes, max_bytes),
        ),
{
    law_shown_is_a_prefix(bytes, max_bytes);
}

/// A text without printable characters has none to count.
proof fn lemma_none_printable(s: Seq<char>)
    requires
        forall|i: int| 0 <= i < s.len() ==> !is_printable(#[trigger] s[i]),
    ensures
        printable_count(s) == 0,
    decreases s.len(),
{
    if s.len() > 0 {
        lemma_none_printable(s.drop_last());
    }
}

/// The code of a control character other than tab, line feed and carriage return: below
/// 32, or from 127 to 159.
pub open spec fn is_stray_code(code: int) -> bool {
    (code <= 31 || (127 <= code && code <= 159)) && code != 9 && code != 10 && code != 13
}

/// A text reads as text exactly where fewer than a tenth of its characters are control
/// characters other than line breaks and tabs, at whatever length.
pub proof fn law_stray_controls_tell_binary(s: Seq<char>)
    ensures
        reads_as_text(s) <==> 10 * s.filter(|c: char| is_stray_code(c as int)).len() < s.len(),
        forall|c: char| #[trigger] is_printable(c) <==> !is_stray_code(c as int),
{
    lemma_count_by_filter(s);
}

/// What is not printable is filtered out, and the rest counted.
proof fn lemma_count_by_filter(s: Seq<char>)
    ensures
        printable_count(s) + s.filter(|c: char| is_stray_code(c as int)).len() == s.len(),
    decreases s.len(),
{
    let stray = |c: char| is_stray_code(c as int);
    reveal(Seq::filter);
    if s.len() > 0 {
        lemma_count_by_filter(s.drop_last());
        assert(is_printable(s.last()) == !stray(s.last()));
    }
}

/// One more character never changes the reading by itself: a printable one keeps a text a
/// text, a stray one keeps what is binary binary.
pub proof fn law_one_more_character(s: Seq<char>, c: char)
    ensures
        reads_as_text(s) && !is_stray_code(c as int) ==> reads_as_text(s.push(c)),
        !reads_as_text(s) && is_stray_code(c as int) ==> !reads_as_text(s.push(c)),
{
    assert(s.push(c).drop_last() =~= s);
}

/// The value of a lower-case hexadecimal digit.
pub open spec fn hex_value(c: char) -> int {
    if c as u32 <= 57 {
        c as u32 - 48
    } else {
        c as u32 - 87
    }
}

/// Every byte is written as two digits of `0` to `9` and `a` to `f`, which tell it.
pub proof fn law_hex_tells_the_bytes(bytes: Seq<u8>, k: int)
    requires
        0 <= k < bytes.len(),
    ensures
        hex_text(bytes).len() == 2 * bytes.len(),
        16 * hex_value(hex_text(bytes)[2 * k]) + hex_value(hex_text(bytes)[2 * k + 1]) == bytes[k],
        forall|i: int|
            2 * k <= i < 2 * k + 2 ==> {
                let code = (#[trigger] hex_text(bytes)[i]) as u32;
                (48 <= code && code <= 57) || (97 <= code && code <= 102)
            },
{
    let j = 2 * k;
    assert(j / 2 == k && j % 2 == 0 && (j + 1) / 2 == k && (j + 1) % 2 == 1);
    let b = bytes[k] as int;
    assert(hex_text(bytes)[j] == hex_digit(b / 16));
    assert(hex_text(bytes)[j + 1] == hex_digit(b % 16));
    assert(b == 16 * (b / 16) + b % 16);
}

/// What is shown has the length that was asked for, or that of the file where that is
/// shorter.
pub proof fn law_shown_is_as_long_as_asked_for(bytes: Seq<u8>, max_bytes: int)
    requires
        0 <= max_bytes,
    ensures
        shown(bytes, max_bytes).len() == if bytes.len() < max_bytes {
            bytes.len() as int
        } else {
            max_bytes
        },
        forall|i: int| 0 <= i < shown(bytes, max_bytes).len() ==> #[trigger] shown(bytes, max_bytes)[i]
            == bytes[i],
{
}

/// ASCII is read by its codes.
pub proof fn law_ascii_is_read_by_its_codes(bytes: Seq<u8>)
    ensures
        ascii_text(bytes).len() == bytes.len(),
        forall|i: int|
            0 <= i < bytes.len() ==> (#[trigger] ascii_text(bytes)[i]) as u32 == bytes[i],
        is_ascii(bytes) <==> forall|i: int| 0 <= i < bytes.len() ==> #[trigger] bytes[i] <= 127,
        is_plain_text(bytes) <==> bytes.len() > 0 && forall|i: int|
            0 <= i < bytes.len() ==> (32 <= #[trigger] bytes[i] && bytes[i] <= 126) || bytes[i] == 9
                || bytes[i] == 10 || bytes[i] == 13,
{
    if is_plain_text(bytes) {
        assert forall|i: int| 0 <= i < bytes.len() implies (32 <= #[trigger] bytes[i] && bytes[i]
            <= 126) || bytes[i] == 9 || bytes[i] == 10 || bytes[i] == 13 by {
            assert(is_printable(bytes[i] as char));
        }
    }
}

/// The answer to a read, in full. The part shown is what was asked for; it is shown as its
/// decoded text where fewer than a tenth of the characters are stray, else as digits.
pub proof fn law_answers_to_a_read(r: ReadOutput, bytes: Seq<u8>, max_bytes: int)
    requires
        0 <= max_bytes,
    ensures
        ({
            let part = bytes.take(
                if bytes.len() < max_bytes {
                    bytes.len() as int
                } else {
                    max_bytes
                },
            );
            let text = shift_jis_text(part);
            let stray = text.filter(|c: char| is_stray_code(c as int)).len();
            answers(r, bytes, max_bytes) <==> {
                &&& r.total_size == bytes.len()
                &&& r.truncated <==> bytes.len() > max_bytes
                &&& r.encoding == Encoding::Utf8 <==> 10 * stray < text.len()
                &&& r.encoding == Encoding::Utf8 ==> r.content@ == text
                &&& r.encoding == Encoding::Binary ==> r.content@ == hex_text(part)
            }
        }),
{
    let part = shown(bytes, max_bytes);
    if bytes.len() < max_bytes {
        assert(bytes.take(bytes.len() as int) =~= part);
    } else {
        assert(bytes.take(max_bytes) =~= part);
    }
    law_stray_controls_tell_binary(shift_jis_text(part));
}

} // verus!
