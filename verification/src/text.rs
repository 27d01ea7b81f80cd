//! Strings as UTF-8 bytes: slicing by byte offsets and the byte-wise order.

use vstd::prelude::*;
use vstd::string::*;
use vstd::utf8::*;

verus! {

/// Number of bytes in the UTF-8 encoding of `text`.
pub open spec fn byte_len(text: Seq<char>) -> int {
    encode_utf8(text).len() as int
}

/// `start..end` is a byte range of `text` that cuts no character in two.
pub open spec fn span_ok(text: Seq<char>, start: int, end: int) -> bool {
    &&& 0 <= start <= end <= byte_len(text)
    &&& is_char_boundary(encode_utf8(text), start)
    &&& is_char_boundary(encode_utf8(text), end)
}

/// The characters of `text` that its bytes `start..end` encode.
pub open spec fn slice_of(text: Seq<char>, start: int, end: int) -> Seq<char> {
    decode_utf8(encode_utf8(text).subrange(start, end))
}

/// The whole byte range of a text is a span, and slicing by it gives the text back.
pub proof fn lemma_slice_whole(text: Seq<char>)
    ensures
        span_ok(text, 0, byte_len(text)),
        span_ok(text, 0, 0),
        span_ok(text, byte_len(text), byte_len(text)),
        slice_of(text, 0, byte_len(text)) == text,
{
    let bytes = encode_utf8(text);
    encode_utf8_valid_utf8(text);
    is_char_boundary_start_end_of_seq(bytes);
    assert(bytes.subrange(0, bytes.len() as int) =~= bytes);
    encode_utf8_decode_utf8(text);
}

/// A boundary of the whole is a boundary of each prefix that reaches it.
proof fn lemma_boundary_within(bytes: Seq<u8>, start: int, end: int)
    requires
        valid_utf8(bytes),
        0 <= start <= end <= bytes.len(),
        is_char_boundary(bytes, start),
        is_char_boundary(bytes, end),
    ensures
        valid_utf8(bytes.subrange(0, end)),
        is_char_boundary(bytes.subrange(0, end), start),
{
    valid_utf8_split(bytes, end);
    let head = bytes.subrange(0, end);
    if start < end {
        is_char_boundary_iff_not_is_continuation_byte(bytes, start);
        is_char_boundary_iff_not_is_continuation_byte(head, start);
    } else {
        is_char_boundary_start_end_of_seq(head);
    }
}

/// Whether `start..end` is a byte range of `text` that cuts no character.
pub fn span_valid(text: &str, start: usize, end: usize) -> (ok: bool)
    ensures
        ok == span_ok(text@, start as int, end as int),
{
    start <= end && end <= byte_count(text) && text.is_char_boundary(start)
        && text.is_char_boundary(end)
}

/// The part of `text` between the byte offsets `start` and `end`.
pub fn slice<'a>(text: &'a str, start: usize, end: usize) -> (piece: &'a str)
    requires
        span_ok(text@, start as int, end as int),
    ensures
        piece@ == slice_of(text@, start as int, end as int),
{
    proof {
        encode_utf8_valid_utf8(text@);
        lemma_boundary_within(text.spec_bytes(), start as int, end as int);
    }
    let (head, _) = text.split_at(end);
    let (_, piece) = head.split_at(start);
    proof {
        assert(piece.spec_bytes() =~= text.spec_bytes().subrange(start as int, end as int));
        encode_utf8_decode_utf8(piece@);
    }
    piece
}

/// The text is empty or ends in a line break.
pub open spec fn ends_line(text: Seq<char>) -> bool {
    text.len() == 0 || text.last() == '\n'
}

/// The encoding of a scalar ends in the byte 10 where the scalar is 10,
/// and only there.
proof fn lemma_scalar_last_byte(c: u32)
    ensures
        encode_scalar(c).len() > 0,
        encode_scalar(c).last() == 10u8 <==> c == 10u32,
{
    if has_width_1_encoding(c) {
        assert(((c & 0x7F) as u8 == 10u8) <==> c == 10u32) by (bit_vector)
            requires
                c <= 0x7F,
        ;
    } else {
        assert((0x80 | (c & 0x3F) as u8) != 10u8) by (bit_vector);
    }
}

/// The encoding of a text that is not empty is not empty, and it ends in
/// the byte 10 where the text ends in a line break, and only there.
pub proof fn lemma_last_byte(text: Seq<char>)
    requires
        text.len() > 0,
    ensures
        encode_utf8(text).len() > 0,
        encode_utf8(text).last() == 10u8 <==> text.last() == '\n',
    decreases text.len(),
{
    let rest = text.drop_first();
    let first = text[0] as u32;
    lemma_scalar_last_byte(first);
    char_u32_cast(text[0], first);
    char_u32_cast('\n', 10u32);
    assert(first == 10u32 <==> text[0] == '\n');
    if rest.len() == 0 {
        assert(encode_utf8(rest).len() == 0);
        assert(encode_utf8(text) =~= encode_scalar(first));
        assert(text.last() == text[0]);
    } else {
        lemma_last_byte(rest);
        assert(text.last() == rest.last());
        assert(encode_utf8(text).last() == encode_utf8(rest).last());
    }
}

/// Whether the text is empty or ends in a line break.
pub fn line_ended(text: &str) -> (ended: bool)
    ensures
        ended == ends_line(text@),
{
    let bytes = text.as_bytes();
    proof {
        if text@.len() > 0 {
            lemma_last_byte(text@);
        }
    }
    bytes.len() == 0 || bytes[bytes.len() - 1] == 10
}

/// The length of `text` in bytes.
pub fn byte_count(text: &str) -> (n: usize)
    ensures
        n == byte_len(text@),
{
    text.as_bytes().len()
}

/// The decimal digits of a number.
pub open spec fn decimal_of(n: nat) -> Seq<char>
    decreases n,
{
    if n < 10 {
        seq![digit_of(n)]
    } else {
        decimal_of(n / 10).push(digit_of(n % 10))
    }
}

/// The character for a digit below ten.
pub open spec fn digit_of(d: nat) -> char {
    if d == 0 {
        '0'
    } else if d == 1 {
        '1'
    } else if d == 2 {
        '2'
    } else if d == 3 {
        '3'
    } else if d == 4 {
        '4'
    } else if d == 5 {
        '5'
    } else if d == 6 {
        '6'
    } else if d == 7 {
        '7'
    } else if d == 8 {
        '8'
    } else {
        '9'
    }
}

/// The one-character string for a digit below ten.
fn digit(d: usize) -> (out: &'static str)
    requires
        d < 10,
    ensures
        out@ == seq![digit_of(d as nat)],
{
    proof {
        reveal_strlit("0");
        reveal_strlit("1");
        reveal_strlit("2");
        reveal_strlit("3");
        reveal_strlit("4");
        reveal_strlit("5");
        reveal_strlit("6");
        reveal_strlit("7");
        reveal_strlit("8");
        reveal_strlit("9");
    }
    let out = if d == 0 {
        "0"
    } else if d == 1 {
        "1"
    } else if d == 2 {
        "2"
    } else if d == 3 {
        "3"
    } else if d == 4 {
        "4"
    } else if d == 5 {
        "5"
    } else if d == 6 {
        "6"
    } else if d == 7 {
        "7"
    } else if d == 8 {
        "8"
    } else {
        "9"
    };
    assert(out@ =~= seq![digit_of(d as nat)]);
    out
}

/// Writes a number in decimal digits.
pub fn decimal(n: usize) -> (out: String)
    ensures
        out@ == decimal_of(n as nat),
    decreases n,
{
    if n < 10 {
        digit(n).to_owned()
    } else {
        let mut out = decimal(n / 10);
        out.append(digit(n % 10));
        assert(out@ =~= decimal_of(n as nat));
        out
    }
}

/// Byte-wise lexicographic order, looking only at positions from `i` on.
pub open spec fn lex_lt_from(a: Seq<u8>, b: Seq<u8>, i: int) -> bool
    decreases a.len() - i,
{
    if i >= b.len() {
        false
    } else if i >= a.len() {
        true
    } else if a[i] != b[i] {
        a[i] < b[i]
    } else {
        lex_lt_from(a, b, i + 1)
    }
}

/// The order of strings: lexicographic by the bytes of their encoding.
pub open spec fn text_lt(a: Seq<char>, b: Seq<char>) -> bool {
    lex_lt_from(encode_utf8(a), encode_utf8(b), 0)
}

/// No byte sequence comes before itself.
pub proof fn lemma_lex_irreflexive(a: Seq<u8>, i: int)
    requires
        0 <= i,
    ensures
        !lex_lt_from(a, a, i),
    decreases a.len() - i,
{
    if i < a.len() {
        lemma_lex_irreflexive(a, i + 1);
    }
}

/// The byte-wise order is transitive.
pub proof fn lemma_lex_transitive(a: Seq<u8>, b: Seq<u8>, c: Seq<u8>, i: int)
    requires
        0 <= i,
        lex_lt_from(a, b, i),
        lex_lt_from(b, c, i),
    ensures
        lex_lt_from(a, c, i),
    decreases a.len() - i,
{
    if i < a.len() && i < b.len() && i < c.len() && a[i] == b[i] && b[i] == c[i] {
        lemma_lex_transitive(a, b, c, i + 1);
    }
}

/// The order is strict: nothing comes before itself.
pub proof fn lemma_text_lt_irreflexive(a: Seq<char>)
    ensures
        !text_lt(a, a),
{
    lemma_lex_irreflexive(encode_utf8(a), 0);
}

/// The order is transitive.
pub proof fn lemma_text_lt_transitive(a: Seq<char>, b: Seq<char>, c: Seq<char>)
    requires
        text_lt(a, b),
        text_lt(b, c),
    ensures
        text_lt(a, c),
{
    lemma_lex_transitive(encode_utf8(a), encode_utf8(b), encode_utf8(c), 0);
}

/// How one string stands to another in the order.
#[derive(Clone, Copy, Debug, PartialEq, Eq)]
pub enum Rank {
    Before,
    Same,
    After,
}

/// Compares two strings byte by byte.
pub fn rank(a: &str, b: &str) -> (r: Rank)
    ensures
        r is Before <==> text_lt(a@, b@),
        r is Same <==> a@ == b@,
        r is After <==> text_lt(b@, a@),
{
    let x = a.as_bytes();
    let y = b.as_bytes();
    let mut i: usize = 0;
    proof {
        lemma_text_lt_irreflexive(a@);
    }
    while i < x.len() && i < y.len()
        invariant
            x@ == encode_utf8(a@),
            y@ == encode_utf8(b@),
            i <= x@.len(),
            i <= y@.len(),
            forall|k: int| 0 <= k < i ==> x@[k] == y@[k],
            lex_lt_from(x@, y@, 0) == lex_lt_from(x@, y@, i as int),
            lex_lt_from(y@, x@, 0) == lex_lt_from(y@, x@, i as int),
        decreases x@.len() - i,
    {
        if x[i] < y[i] {
            assert(a@ != b@);
            return Rank::Before;
        }
        if x[i] > y[i] {
            assert(a@ != b@);
            return Rank::After;
        }
        i += 1;
    }
    if i < y.len() {
        assert(a@ != b@);
        Rank::Before
    } else if i < x.len() {
        assert(a@ != b@);
        Rank::After
    } else {
        proof {
            assert(x@ =~= y@);
            encode_utf8_decode_utf8(a@);
            encode_utf8_decode_utf8(b@);
        }
        Rank::Same
    }
}

} // verus!
