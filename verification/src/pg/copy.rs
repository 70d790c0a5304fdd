//! PostgreSQL COPY TEXT escaping.
//!
//! COPY TEXT is tab-delimited with backslash escaping: `\` becomes `\\`,
//! newline `\n`, carriage return `\r`, tab `\t`; every other character is
//! written as it is.

use vstd::prelude::*;
use vstd::utf8::encode_utf8;

use crate::text::chars;

verus! {

/// The escaped form of one character.
pub open spec fn escape_char_spec(c: char) -> Seq<char> {
    if c == '\\' {
        seq!['\\', '\\']
    } else if c == '\n' {
        seq!['\\', 'n']
    } else if c == '\r' {
        seq!['\\', 'r']
    } else if c == '\t' {
        seq!['\\', 't']
    } else {
        seq![c]
    }
}

/// The COPY TEXT escaping of a character sequence.
pub open spec fn escape_copy_text_spec(s: Seq<char>) -> Seq<char> {
    chars::flat_map(s, |c: char| escape_char_spec(c))
}

/// The escaped form of one byte.
pub open spec fn escape_byte_spec(b: u8) -> Seq<u8> {
    if b == 0x5c {
        seq![0x5cu8, 0x5cu8]
    } else if b == 0x0a {
        seq![0x5cu8, 0x6eu8]
    } else if b == 0x0d {
        seq![0x5cu8, 0x72u8]
    } else if b == 0x09 {
        seq![0x5cu8, 0x74u8]
    } else {
        seq![b]
    }
}

/// The COPY TEXT escaping of a byte sequence, byte by byte.
pub open spec fn escape_bytes_spec(b: Seq<u8>) -> Seq<u8>
    decreases b.len(),
{
    if b.len() == 0 {
        seq![]
    } else {
        escape_bytes_spec(b.drop_last()) + escape_byte_spec(b.last())
    }
}

/// Escaping the UTF-8 bytes of a text byte by byte gives the UTF-8 bytes
/// of its escaped text: [`escape_copy_text_into`] appends exactly the
/// encoding of what [`escape_copy_text`] returns.
pub proof fn lemma_escape_into_agrees(s: Seq<char>)
    ensures
        escape_bytes_spec(encode_utf8(s)) == encode_utf8(escape_copy_text_spec(s)),
    decreases s.len(),
{
    if s.len() > 0 {
        let c = s[0];
        let t = s.drop_first();
        assert(s == seq![c] + t);
        lemma_escape_into_agrees(t);
        lemma_escape_bytes_append(vstd::utf8::encode_scalar(c as u32), encode_utf8(t));
        chars::lemma_flat_map_append(seq![c], t, |c: char| escape_char_spec(c));
        chars::lemma_flat_map_push(Seq::<char>::empty(), c, |c: char| escape_char_spec(c));
        assert(Seq::<char>::empty().push(c) == seq![c]);
        assert(Seq::<char>::empty() + escape_char_spec(c) == escape_char_spec(c));
        lemma_encode_utf8_append(escape_char_spec(c), escape_copy_text_spec(t));
        lemma_escape_scalar(c);
    }
}

/// Escaped text holds no tab, newline or carriage return, so a value can
/// never split a COPY TEXT column or row.
pub proof fn lemma_escaped_has_no_delimiters(s: Seq<char>)
    ensures
        forall|i: int|
            0 <= i < escape_copy_text_spec(s).len() ==> {
                let c = #[trigger] escape_copy_text_spec(s)[i];
                c != '\t' && c != '\n' && c != '\r'
            },
{
    let f = |c: char| escape_char_spec(c);
    let p = |c: char| c != '\t' && c != '\n' && c != '\r';
    assert forall|c: char, j: int| 0 <= j < f(c).len() implies p(#[trigger] f(c)[j]) by {}
    chars::lemma_flat_map_all(s, f, p);
}

/// COPY TEXT unescaping: a backslash followed by `n`, `r` or `t` is a
/// newline, carriage return or tab, followed by any other character it is
/// that character; every other character stands for itself.
pub open spec fn unescape_copy_text_spec(s: Seq<char>) -> Seq<char>
    decreases s.len(),
{
    if s.len() == 0 {
        seq![]
    } else if s[0] == '\\' && s.len() >= 2 {
        let c = s[1];
        let d = if c == 'n' {
            '\n'
        } else if c == 'r' {
            '\r'
        } else if c == 't' {
            '\t'
        } else {
            c
        };
        seq![d] + unescape_copy_text_spec(s.skip(2))
    } else {
        seq![s[0]] + unescape_copy_text_spec(s.drop_first())
    }
}

/// Unescaping the escaped text gives the text back: escaping loses
/// nothing.
pub proof fn lemma_escape_round_trip(s: Seq<char>)
    ensures
        unescape_copy_text_spec(escape_copy_text_spec(s)) == s,
    decreases s.len(),
{
    if s.len() > 0 {
        let c = s[0];
        let t = s.drop_first();
        let f = |c: char| escape_char_spec(c);
        assert(s == seq![c] + t);
        chars::lemma_flat_map_append(seq![c], t, f);
        chars::lemma_flat_map_push(Seq::<char>::empty(), c, f);
        assert(Seq::<char>::empty().push(c) == seq![c]);
        assert(chars::flat_map(Seq::<char>::empty(), f) == Seq::<char>::empty());
        assert(Seq::<char>::empty() + escape_char_spec(c) == escape_char_spec(c));
        let rest = escape_copy_text_spec(t);
        let e = escape_char_spec(c) + rest;
        assert(escape_copy_text_spec(s) == e);
        lemma_escape_round_trip(t);
        if c == '\\' || c == '\n' || c == '\r' || c == '\t' {
            assert(e.skip(2) =~= rest);
            assert(e[0] == '\\');
        } else {
            assert(e.drop_first() =~= rest);
            assert(e[0] == c);
        }
        assert(seq![c] + t =~= s);
    }
}

/// Escaping distributes over concatenation of byte sequences.
proof fn lemma_escape_bytes_append(a: Seq<u8>, b: Seq<u8>)
    ensures
        escape_bytes_spec(a + b) == escape_bytes_spec(a) + escape_bytes_spec(b),
    decreases b.len(),
{
    if b.len() == 0 {
        assert(a + b == a);
    } else {
        lemma_escape_bytes_append(a, b.drop_last());
        assert((a + b).drop_last() == a + b.drop_last());
        assert((a + b).last() == b.last());
    }
}

/// UTF-8 encoding distributes over concatenation.
proof fn lemma_encode_utf8_append(a: Seq<char>, b: Seq<char>)
    ensures
        encode_utf8(a + b) == encode_utf8(a) + encode_utf8(b),
    decreases a.len(),
{
    if a.len() == 0 {
        assert(a + b == b);
    } else {
        lemma_encode_utf8_append(a.drop_first(), b);
        assert((a + b).drop_first() == a.drop_first() + b);
        assert((a + b)[0] == a[0]);
    }
}

/// Escaping the bytes of one character's encoding gives the encoding of
/// its escaped form.
proof fn lemma_escape_scalar(c: char)
    ensures
        escape_bytes_spec(vstd::utf8::encode_scalar(c as u32)) == encode_utf8(escape_char_spec(c)),
{
    let v = c as u32;
    let e = vstd::utf8::encode_scalar(v);
    if vstd::utf8::has_width_1_encoding(v) {
        assert((v & 0x7F) as u8 == v) by (bit_vector)
            requires
                v <= 0x7F,
        ;
        assert(e == seq![v as u8]);
        lemma_escape_one_byte(v as u8);
        if c == '\\' {
            lemma_encode_ascii_pair('\\', '\\');
        } else if c == '\n' {
            lemma_encode_ascii_pair('\\', 'n');
        } else if c == '\r' {
            lemma_encode_ascii_pair('\\', 'r');
        } else if c == '\t' {
            lemma_encode_ascii_pair('\\', 't');
        } else {
            lemma_encode_one(c);
        }
    } else {
        lemma_encode_one(c);
        if vstd::utf8::has_width_2_encoding(v) {
            assert(0xC0u8 | ((v >> 6) & 0x1F) as u8 >= 0x80) by (bit_vector);
            assert(0x80u8 | (v & 0x3F) as u8 >= 0x80) by (bit_vector);
        } else if vstd::utf8::has_width_3_encoding(v) {
            assert(0xE0u8 | ((v >> 12) & 0x0F) as u8 >= 0x80) by (bit_vector);
            assert(0x80u8 | ((v >> 6) & 0x3F) as u8 >= 0x80) by (bit_vector);
            assert(0x80u8 | (v & 0x3F) as u8 >= 0x80) by (bit_vector);
        } else {
            assert(0xF0u8 | ((v >> 18) & 0x7) as u8 >= 0x80) by (bit_vector);
            assert(0x80u8 | ((v >> 12) & 0x3F) as u8 >= 0x80) by (bit_vector);
            assert(0x80u8 | ((v >> 6) & 0x3F) as u8 >= 0x80) by (bit_vector);
            assert(0x80u8 | (v & 0x3F) as u8 >= 0x80) by (bit_vector);
        }
        assert forall|i: int| 0 <= i < e.len() implies #[trigger] e[i] >= 0x80 by {}
        lemma_escape_high_bytes(e);
    }
}

/// The encoding of two ASCII characters is their two code bytes.
proof fn lemma_encode_ascii_pair(a: char, b: char)
    requires
        (a as u32) <= 0x7F,
        (b as u32) <= 0x7F,
    ensures
        encode_utf8(seq![a, b]) == seq![a as u8, b as u8],
{
    let x = a as u32;
    let y = b as u32;
    assert((x & 0x7F) as u8 == x) by (bit_vector)
        requires
            x <= 0x7F,
    ;
    assert((y & 0x7F) as u8 == y) by (bit_vector)
        requires
            y <= 0x7F,
    ;
    assert(seq![a, b] == seq![a] + seq![b]);
    lemma_encode_utf8_append(seq![a], seq![b]);
    lemma_encode_one(a);
    lemma_encode_one(b);
}

/// A one-byte sequence escapes as its byte does.
proof fn lemma_escape_one_byte(b: u8)
    ensures
        escape_bytes_spec(seq![b]) == escape_byte_spec(b),
{
    assert(seq![b].drop_last() == Seq::<u8>::empty());
    assert(seq![b].last() == b);
    assert(escape_bytes_spec(Seq::<u8>::empty()) == Seq::<u8>::empty());
    assert(Seq::<u8>::empty() + escape_byte_spec(b) == escape_byte_spec(b));
}

/// The encoding of a one-character sequence is that character's scalar
/// encoding.
proof fn lemma_encode_one(c: char)
    ensures
        encode_utf8(seq![c]) == vstd::utf8::encode_scalar(c as u32),
{
    assert(seq![c].drop_first() == Seq::<char>::empty());
    assert(seq![c][0] == c);
    assert(encode_utf8(Seq::<char>::empty()) == Seq::<u8>::empty());
    let e = vstd::utf8::encode_scalar(c as u32);
    assert(e + Seq::<u8>::empty() == e);
}

/// Bytes at or above 0x80 are never escaped.
proof fn lemma_escape_high_bytes(b: Seq<u8>)
    requires
        forall|i: int| 0 <= i < b.len() ==> #[trigger] b[i] >= 0x80,
    ensures
        escape_bytes_spec(b) == b,
    decreases b.len(),
{
    if b.len() > 0 {
        assert forall|i: int| 0 <= i < b.drop_last().len() implies #[trigger] b.drop_last()[i] >= 0x80 by {
            assert(b.drop_last()[i] == b[i]);
        }
        lemma_escape_high_bytes(b.drop_last());
        assert(b.drop_last().push(b.last()) == b);
    }
}

/// Escape a string for PostgreSQL COPY TEXT format.
pub fn escape_copy_text(s: &str) -> (r: String)
    ensures
        r@ == escape_copy_text_spec(s@),
{
    let v = chars::chars_of(s);
    let mut out: Vec<char> = Vec::new();
    let mut i: usize = 0;
    while i < v.len()
        invariant
            i <= v@.len(),
            v@ == s@,
            out@ == escape_copy_text_spec(v@.take(i as int)),
        decreases v.len() - i,
    {
        let c = v[i];
        proof {
            chars::lemma_flat_map_take_step(v@, i as int, |c: char| escape_char_spec(c));
        }
        if c == '\\' {
            out.push('\\');
            out.push('\\');
        } else if c == '\n' {
            out.push('\\');
            out.push('n');
        } else if c == '\r' {
            out.push('\\');
            out.push('r');
        } else if c == '\t' {
            out.push('\\');
            out.push('t');
        } else {
            out.push(c);
        }
        i += 1;
    }
    assert(v@.take(v@.len() as int) == v@);
    chars::string_of(&out)
}

/// Escape a string for PostgreSQL COPY TEXT format, appending the escaped
/// UTF-8 bytes directly to `buf`.
pub fn escape_copy_text_into(buf: &mut Vec<u8>, s: &str)
    ensures
        final(buf)@ == old(buf)@ + escape_bytes_spec(encode_utf8(s@)),
{
    let bytes = s.as_bytes();
    let ghost start = buf@;
    let mut i: usize = 0;
    while i < bytes.len()
        invariant
            i <= bytes@.len(),
            bytes@ == encode_utf8(s@),
            buf@ == start + escape_bytes_spec(bytes@.take(i as int)),
        decreases bytes.len() - i,
    {
        let b = bytes[i];
        assert(bytes@.take(i + 1).drop_last() == bytes@.take(i as int));
        if b == 0x5c {
            buf.push(0x5c);
            buf.push(0x5c);
        } else if b == 0x0a {
            buf.push(0x5c);
            buf.push(0x6e);
        } else if b == 0x0d {
            buf.push(0x5c);
            buf.push(0x72);
        } else if b == 0x09 {
            buf.push(0x5c);
            buf.push(0x74);
        } else {
            buf.push(b);
        }
        i += 1;
    }
    assert(bytes@.take(bytes@.len() as int) == bytes@);
}

} // verus!
