//! Escaping of string contents for JSON text.
//!
//! Seven characters are written as a backslash followed by a letter or by
//! the character itself: the quote, the backslash, backspace, form feed,
//! line feed, carriage return and tab. Every other character is copied.
//! The work is done on the UTF-8 bytes of the input: each of the seven
//! characters is a single ASCII byte, and no byte of a multi-byte encoding
//! is ASCII, so byte-wise escaping agrees with character-wise escaping.

use std::borrow::Cow;
use vstd::prelude::*;
use vstd::utf8::*;
use crate::json::text::{lemma_encode_ascii_char, lemma_encode_concat, string_from_encoded};

verus! {

/// The characters that are written escaped.
pub open spec fn is_escape_char(c: char) -> bool {
    c == '"' || c == '\\' || c == '\x08' || c == '\x0C' || c == '\n' || c == '\r' || c == '\t'
}

/// The character that follows the backslash in the escaped form of `c`.
pub open spec fn escape_letter(c: char) -> char {
    if c == '\x08' {
        'b'
    } else if c == '\x0C' {
        'f'
    } else if c == '\n' {
        'n'
    } else if c == '\r' {
        'r'
    } else if c == '\t' {
        't'
    } else {
        c
    }
}

/// The text that stands for `c` inside a JSON string.
pub open spec fn escape_char(c: char) -> Seq<char> {
    if is_escape_char(c) {
        seq!['\\', escape_letter(c)]
    } else {
        seq![c]
    }
}

/// The text that stands for `s` inside a JSON string: each character replaced by
/// its escaped form.
pub open spec fn escape_chars(s: Seq<char>) -> Seq<char>
    decreases s.len(),
{
    if s.len() == 0 {
        seq![]
    } else {
        escape_chars(s.drop_last()) + escape_char(s.last())
    }
}

/// Whether some character of `s` must be escaped.
pub open spec fn has_escape_char(s: Seq<char>) -> bool {
    exists|i: int| 0 <= i < s.len() && is_escape_char(#[trigger] s[i])
}

/// The bytes that are written escaped (the ASCII codes of the escape characters).
pub open spec fn is_escape_byte(b: u8) -> bool {
    b == 0x22 || b == 0x5C || b == 0x08 || b == 0x0C || b == 0x0A || b == 0x0D || b == 0x09
}

/// The escaped form of one byte.
pub open spec fn escape_byte(b: u8) -> Seq<u8> {
    if b == 0x08 {
        seq![0x5Cu8, 0x62u8]
    } else if b == 0x0C {
        seq![0x5Cu8, 0x66u8]
    } else if b == 0x0A {
        seq![0x5Cu8, 0x6Eu8]
    } else if b == 0x0D {
        seq![0x5Cu8, 0x72u8]
    } else if b == 0x09 {
        seq![0x5Cu8, 0x74u8]
    } else if b == 0x22 || b == 0x5C {
        seq![0x5Cu8, b]
    } else {
        seq![b]
    }
}

/// The escaped form of a byte sequence, byte by byte.
pub open spec fn escape_bytes(s: Seq<u8>) -> Seq<u8>
    decreases s.len(),
{
    if s.len() == 0 {
        seq![]
    } else {
        escape_bytes(s.drop_last()) + escape_byte(s.last())
    }
}

proof fn lemma_escape_chars_concat(a: Seq<char>, b: Seq<char>)
    ensures
        escape_chars(a + b) == escape_chars(a) + escape_chars(b),
    decreases b.len(),
{
    if b.len() == 0 {
        assert(a + b =~= a);
        assert(escape_chars(a) + escape_chars(b) =~= escape_chars(a));
    } else {
        lemma_escape_chars_concat(a, b.drop_last());
        assert((a + b).drop_last() =~= a + b.drop_last());
        assert(escape_chars(a) + escape_chars(b) =~= escape_chars(a) + escape_chars(b.drop_last())
            + escape_char(b.last()));
    }
}

proof fn lemma_escape_bytes_concat(a: Seq<u8>, b: Seq<u8>)
    ensures
        escape_bytes(a + b) == escape_bytes(a) + escape_bytes(b),
    decreases b.len(),
{
    if b.len() == 0 {
        assert(a + b =~= a);
        assert(escape_bytes(a) + escape_bytes(b) =~= escape_bytes(a));
    } else {
        lemma_escape_bytes_concat(a, b.drop_last());
        assert((a + b).drop_last() =~= a + b.drop_last());
        assert(escape_bytes(a) + escape_bytes(b) =~= escape_bytes(a) + escape_bytes(b.drop_last())
            + escape_byte(b.last()));
    }
}

proof fn lemma_escape_bytes_single(b: u8)
    ensures
        escape_bytes(seq![b]) == escape_byte(b),
{
    assert(seq![b].drop_last() =~= Seq::<u8>::empty());
    assert(escape_bytes(seq![b]) =~= escape_bytes(Seq::<u8>::empty()) + escape_byte(b));
}

proof fn lemma_escape_chars_single(c: char)
    ensures
        escape_chars(seq![c]) == escape_char(c),
{
    assert(seq![c].drop_last() =~= Seq::<char>::empty());
    assert(escape_chars(seq![c]) =~= escape_chars(Seq::<char>::empty()) + escape_char(c));
}

/// Bytes at or above 0x80 are copied unchanged.
proof fn lemma_escape_bytes_high(s: Seq<u8>)
    requires
        forall|i: int| 0 <= i < s.len() ==> #[trigger] s[i] >= 0x80,
    ensures
        escape_bytes(s) == s,
    decreases s.len(),
{
    if s.len() > 0 {
        lemma_escape_bytes_high(s.drop_last());
        assert(s.drop_last() + seq![s.last()] =~= s);
    }
}

/// Escaping the encoding of one character gives the encoding of its escaped form.
proof fn lemma_escape_encoded_char(c: char)
    ensures
        escape_bytes(encode_utf8(seq![c])) == encode_utf8(escape_char(c)),
{
    let s = c as u32;
    char_is_scalar(c);
    if s < 128 {
        lemma_encode_ascii_char(c);
        lemma_escape_bytes_single(c as u8);
        if is_escape_char(c) {
            let l = escape_letter(c);
            lemma_encode_ascii_char('\\');
            lemma_encode_ascii_char(l);
            lemma_encode_concat(seq!['\\'], seq![l]);
            assert(seq!['\\'] + seq![l] =~= seq!['\\', l]);
            assert(seq!['\\' as u8] + seq![l as u8] =~= seq!['\\' as u8, l as u8]);
        }
    } else {
        assert(seq![c].drop_first() =~= Seq::<char>::empty());
        assert(encode_utf8(seq![c]) =~= encode_scalar(s) + encode_utf8(Seq::<char>::empty()));
        let e = encode_scalar(s);
        assert(forall|i: int| 0 <= i < e.len() ==> #[trigger] e[i] >= 0x80) by {
            assert(leading_byte_width_2(s) >= 0x80) by (bit_vector);
            assert(leading_byte_width_3(s) >= 0x80) by (bit_vector);
            assert(leading_byte_width_4(s) >= 0x80) by (bit_vector);
            assert(last_continuation_byte(s) >= 0x80) by (bit_vector);
            assert(second_last_continuation_byte(s) >= 0x80) by (bit_vector);
            assert(third_last_continuation_byte(s) >= 0x80) by (bit_vector);
        }
        lemma_escape_bytes_high(e);
        assert(e + Seq::<u8>::empty() =~= e);
    }
}

/// Escaping the UTF-8 bytes of a text gives the UTF-8 bytes of the escaped text.
pub proof fn lemma_escape_bytes_encode(s: Seq<char>)
    ensures
        escape_bytes(encode_utf8(s)) == encode_utf8(escape_chars(s)),
    decreases s.len(),
{
    if s.len() == 0 {
        assert(encode_utf8(s) =~= Seq::<u8>::empty());
    } else {
        let init = s.drop_last();
        let c = s.last();
        lemma_escape_bytes_encode(init);
        assert(init + seq![c] =~= s);
        lemma_encode_concat(init, seq![c]);
        lemma_escape_bytes_concat(encode_utf8(init), encode_utf8(seq![c]));
        lemma_escape_encoded_char(c);
        lemma_encode_concat(escape_chars(init), escape_char(c));
    }
}


/// Whether some byte of `s` must be escaped.
pub open spec fn has_escape_byte(s: Seq<u8>) -> bool {
    exists|i: int| 0 <= i < s.len() && is_escape_byte(#[trigger] s[i])
}

/// The encoding of one character is a single ASCII byte or bytes at or above 0x80.
proof fn lemma_encoded_char_bytes(c: char)
    ensures
        (c as u32) < 128 ==> encode_utf8(seq![c]) == seq![c as u8],
        (c as u32) >= 128 ==> forall|i: int|
            0 <= i < encode_utf8(seq![c]).len() ==> #[trigger] encode_utf8(seq![c])[i] >= 0x80,
{
    let s = c as u32;
    char_is_scalar(c);
    if s < 128 {
        lemma_encode_ascii_char(c);
    } else {
        assert(seq![c].drop_first() =~= Seq::<char>::empty());
        assert(encode_utf8(seq![c]) =~= encode_scalar(s) + encode_utf8(Seq::<char>::empty()));
        assert(leading_byte_width_2(s) >= 0x80) by (bit_vector);
        assert(leading_byte_width_3(s) >= 0x80) by (bit_vector);
        assert(leading_byte_width_4(s) >= 0x80) by (bit_vector);
        assert(last_continuation_byte(s) >= 0x80) by (bit_vector);
        assert(second_last_continuation_byte(s) >= 0x80) by (bit_vector);
        assert(third_last_continuation_byte(s) >= 0x80) by (bit_vector);
    }
}

/// For an ASCII character, its byte is an escape byte exactly when it is an
/// escape character.
proof fn lemma_ascii_escape_byte(c: char)
    requires
        (c as u32) < 128,
    ensures
        (c as u8) as int == c as int,
        is_escape_byte(c as u8) == is_escape_char(c),
{
}

/// A text holds a character that must be escaped exactly when its encoding holds
/// a byte that must be escaped.
pub proof fn lemma_has_escape_encode(s: Seq<char>)
    ensures
        has_escape_byte(encode_utf8(s)) == has_escape_char(s),
    decreases s.len(),
{
    if s.len() == 0 {
        assert(encode_utf8(s) =~= Seq::<u8>::empty());
    } else {
        let init = s.drop_last();
        let c = s.last();
        lemma_has_escape_encode(init);
        assert(init + seq![c] =~= s);
        lemma_encode_concat(init, seq![c]);
        lemma_encoded_char_bytes(c);
        let a = encode_utf8(init);
        let b = encode_utf8(seq![c]);
        let e = encode_utf8(s);
        assert(e == a + b);
        if has_escape_char(s) {
            let i = choose|i: int| 0 <= i < s.len() && is_escape_char(#[trigger] s[i]);
            if i < init.len() {
                assert(init[i] == s[i]);
                assert(has_escape_char(init));
                let j = choose|j: int| 0 <= j < a.len() && is_escape_byte(#[trigger] a[j]);
                assert(e[j] == a[j]);
            } else {
                assert(c == s[i]);
                assert((c as u32) < 128);
                assert(e[a.len() as int] == b[0]);
            }
        }
        if has_escape_byte(e) {
            let j = choose|j: int| 0 <= j < e.len() && is_escape_byte(#[trigger] e[j]);
            if j < a.len() {
                assert(a[j] == e[j]);
                assert(has_escape_byte(a));
                let i = choose|i: int| 0 <= i < init.len() && is_escape_char(#[trigger] init[i]);
                assert(s[i] == init[i]);
            } else {
                assert(b[j - a.len()] == e[j]);
                if (c as u32) >= 128 {
                    assert(b[j - a.len()] >= 0x80);
                } else {
                    lemma_ascii_escape_byte(c);
                    assert(b[0] == c as u8);
                    assert(is_escape_char(s[s.len() - 1]));
                }
            }
        }
    }
}

/// A text without characters to escape is its own escaped form.
pub proof fn lemma_escape_chars_identity(s: Seq<char>)
    requires
        !has_escape_char(s),
    ensures
        escape_chars(s) == s,
    decreases s.len(),
{
    if s.len() > 0 {
        let init = s.drop_last();
        assert(!has_escape_char(init)) by {
            if has_escape_char(init) {
                let i = choose|i: int| 0 <= i < init.len() && is_escape_char(#[trigger] init[i]);
                assert(s[i] == init[i]);
            }
        }
        lemma_escape_chars_identity(init);
        assert(!is_escape_char(s[s.len() - 1]));
        assert(init + seq![s.last()] =~= s);
    }
}

/// Whether `s` holds a character that JSON text must escape: a quote, a
/// backslash, backspace, form feed, line feed, carriage return or tab.
pub fn is_contained_escape_char(s: &str) -> (found: bool)
    ensures
        found == has_escape_char(s@),
{
    let bytes = s.as_bytes();
    proof {
        lemma_has_escape_encode(s@);
    }
    let mut i: usize = 0;
    while i < bytes.len()
        invariant
            0 <= i <= bytes@.len(),
            has_escape_byte(bytes@) == has_escape_char(s@),
            forall|j: int| 0 <= j < i ==> !is_escape_byte(#[trigger] bytes@[j]),
        decreases bytes@.len() - i,
    {
        let elem = bytes[i];
        if elem & 0x80 != 0 {
            assert(elem & 0x80 != 0 ==> elem >= 0x80) by (bit_vector);
            i += 1;
            continue;
        }
        match elem {
            0x22 => return true,
            0x5C => return true,
            0x08 => return true,
            0x0C => return true,
            0x0A => return true,
            0x0D => return true,
            0x09 => return true,
            _ => {},
        }
        i += 1;
    }
    false
}

/// Appends the escaped form of `s` to `out`, in UTF-8.
pub(crate) fn push_escaped(out: &mut Vec<u8>, s: &str)
    ensures
        final(out)@ == old(out)@ + encode_utf8(escape_chars(s@)),
{
    let bytes = s.as_bytes();
    let mut i: usize = 0;
    while i < bytes.len()
        invariant
            0 <= i <= bytes@.len(),
            bytes@ == encode_utf8(s@),
            out@ == old(out)@ + escape_bytes(bytes@.take(i as int)),
        decreases bytes@.len() - i,
    {
        let elem = bytes[i];
        let ghost before = out@;
        if elem & 0x80 != 0 {
            assert(elem & 0x80 != 0 ==> elem >= 0x80) by (bit_vector);
            out.push(elem);
        } else {
            match elem {
                0x22 => {
                    out.push(0x5C);
                    out.push(0x22);
                },
                0x5C => {
                    out.push(0x5C);
                    out.push(0x5C);
                },
                0x08 => {
                    out.push(0x5C);
                    out.push(0x62);
                },
                0x0C => {
                    out.push(0x5C);
                    out.push(0x66);
                },
                0x0A => {
                    out.push(0x5C);
                    out.push(0x6E);
                },
                0x0D => {
                    out.push(0x5C);
                    out.push(0x72);
                },
                0x09 => {
                    out.push(0x5C);
                    out.push(0x74);
                },
                _ => {
                    out.push(elem);
                },
            }
        }
        proof {
            assert(out@ =~= before + escape_byte(elem));
            assert(bytes@.take(i + 1) =~= bytes@.take(i as int) + seq![elem]);
            lemma_escape_bytes_concat(bytes@.take(i as int), seq![elem]);
            lemma_escape_bytes_single(elem);
        }
        i += 1;
    }
    proof {
        assert(bytes@.take(i as int) =~= bytes@);
        lemma_escape_bytes_encode(s@);
    }
}

/// The text of `scr` with every character that JSON must escape written as a
/// backslash sequence. When nothing needs escaping the input is handed back
/// borrowed; otherwise a new string is built.
pub fn escaped_string(scr: &str) -> (res: Cow<'_, str>)
    ensures
        res@ == escape_chars(scr@),
        (res is Borrowed) == !has_escape_char(scr@),
{
    if is_contained_escape_char(scr) {
        let mut out: Vec<u8> = Vec::new();
        push_escaped(&mut out, scr);
        assert(out@ =~= encode_utf8(escape_chars(scr@)));
        Cow::Owned(string_from_encoded(out, Ghost(escape_chars(scr@))))
    } else {
        proof {
            lemma_escape_chars_identity(scr@);
        }
        Cow::Borrowed(scr)
    }
}


/// The character that a backslash sequence with letter `c` stands for.
pub open spec fn unescape_letter(c: char) -> char {
    if c == 'b' {
        '\x08'
    } else if c == 'f' {
        '\x0C'
    } else if c == 'n' {
        '\n'
    } else if c == 'r' {
        '\r'
    } else if c == 't' {
        '\t'
    } else {
        c
    }
}

/// Reads escaped text back: a backslash and the character after it stand for
/// one character, every other character for itself.
pub open spec fn unescape_chars(t: Seq<char>) -> Seq<char>
    decreases t.len(),
{
    if t.len() == 0 {
        seq![]
    } else if t[0] == '\\' && t.len() >= 2 {
        seq![unescape_letter(t[1])] + unescape_chars(t.subrange(2, t.len() as int))
    } else {
        seq![t[0]] + unescape_chars(t.subrange(1, t.len() as int))
    }
}

/// The number of characters of `s` that are written escaped.
pub open spec fn escape_count(s: Seq<char>) -> nat
    decreases s.len(),
{
    if s.len() == 0 {
        0
    } else {
        escape_count(s.drop_last()) + if is_escape_char(s.last()) {
            1nat
        } else {
            0nat
        }
    }
}

/// The control characters that may not appear raw inside a JSON string here.
pub open spec fn is_escaped_control(c: char) -> bool {
    c == '\x08' || c == '\x0C' || c == '\n' || c == '\r' || c == '\t'
}

proof fn lemma_escape_chars_first(s: Seq<char>)
    requires
        s.len() > 0,
    ensures
        escape_chars(s) == escape_char(s[0]) + escape_chars(s.drop_first()),
{
    assert(seq![s[0]] + s.drop_first() =~= s);
    lemma_escape_chars_concat(seq![s[0]], s.drop_first());
    lemma_escape_chars_single(s[0]);
}

/// Law: escaping loses nothing; reading the escaped text back gives the
/// text it was made from.
pub proof fn law_unescape_escape(s: Seq<char>)
    ensures
        unescape_chars(escape_chars(s)) == s,
    decreases s.len(),
{
    if s.len() == 0 {
        assert(escape_chars(s) =~= Seq::<char>::empty());
    } else {
        let c = s[0];
        let rest = s.drop_first();
        lemma_escape_chars_first(s);
        law_unescape_escape(rest);
        let t = escape_chars(s);
        if is_escape_char(c) {
            assert(t[0] == '\\');
            assert(t[1] == escape_letter(c));
            assert(t.subrange(2, t.len() as int) =~= escape_chars(rest));
            assert(unescape_letter(escape_letter(c)) == c);
        } else {
            assert(t[0] == c);
            assert(t.subrange(1, t.len() as int) =~= escape_chars(rest));
        }
        assert(seq![c] + rest =~= s);
    }
}

/// Law: escaped text holds no raw backspace, form feed, line feed, carriage
/// return or tab.
pub proof fn law_escaped_has_no_control(s: Seq<char>)
    ensures
        forall|i: int| 0 <= i < escape_chars(s).len() ==> !is_escaped_control(#[trigger] escape_chars(s)[i]),
    decreases s.len(),
{
    if s.len() > 0 {
        law_escaped_has_no_control(s.drop_last());
        let a = escape_chars(s.drop_last());
        let b = escape_char(s.last());
        assert forall|i: int| 0 <= i < escape_chars(s).len() implies !is_escaped_control(
            #[trigger] escape_chars(s)[i],
        ) by {
            if i < a.len() {
                assert(escape_chars(s)[i] == a[i]);
            } else {
                assert(escape_chars(s)[i] == b[i - a.len()]);
            }
        }
    }
}

/// Law: escaping adds exactly one character (the backslash) for each
/// character written escaped.
pub proof fn law_escaped_length(s: Seq<char>)
    ensures
        escape_chars(s).len() == s.len() + escape_count(s),
    decreases s.len(),
{
    if s.len() > 0 {
        law_escaped_length(s.drop_last());
    }
}

proof fn lemma_escape_count_positive(s: Seq<char>)
    requires
        has_escape_char(s),
    ensures
        escape_count(s) > 0,
    decreases s.len(),
{
    let i = choose|i: int| 0 <= i < s.len() && is_escape_char(#[trigger] s[i]);
    if i < s.len() - 1 {
        assert(s.drop_last()[i] == s[i]);
        lemma_escape_count_positive(s.drop_last());
    }
}

/// Law: escaping changes a text exactly when the text holds a character
/// that must be escaped.
pub proof fn law_escape_changes_iff_needed(s: Seq<char>)
    ensures
        (escape_chars(s) == s) == !has_escape_char(s),
{
    if has_escape_char(s) {
        lemma_escape_count_positive(s);
        law_escaped_length(s);
    } else {
        lemma_escape_chars_identity(s);
    }
}


/// Law: only the seven JSON escapes are rewritten. A character other than
/// the quote, the backslash, backspace, form feed, line feed, carriage return
/// and tab stands for itself; those seven are written as a backslash followed
/// by `"`, `\`, `b`, `f`, `n`, `r`, `t` respectively.
pub proof fn law_escape_table(c: char)
    ensures
        !(c == '"' || c == '\\' || c == '\u{8}' || c == '\u{c}' || c == '\n' || c == '\r' || c
            == '\t') ==> escape_char(c) == seq![c],
        c == '"' ==> escape_char(c) == seq!['\\', '"'],
        c == '\\' ==> escape_char(c) == seq!['\\', '\\'],
        c == '\u{8}' ==> escape_char(c) == seq!['\\', 'b'],
        c == '\u{c}' ==> escape_char(c) == seq!['\\', 'f'],
        c == '\n' ==> escape_char(c) == seq!['\\', 'n'],
        c == '\r' ==> escape_char(c) == seq!['\\', 'r'],
        c == '\t' ==> escape_char(c) == seq!['\\', 't'],
{
}

/// Law: a text holding none of the seven JSON escape characters needs no
/// escaping and is its own escaped form (so `escaped_string` hands it back
/// borrowed and `is_contained_escape_char` answers `false`); a text holding
/// one of them needs escaping.
pub proof fn law_plain_text_unchanged(s: Seq<char>)
    ensures
        (forall|i: int|
            0 <= i < s.len() ==> !(#[trigger] s[i] == '"' || s[i] == '\\' || s[i] == '\u{8}' || s[i]
                == '\u{c}' || s[i] == '\n' || s[i] == '\r' || s[i] == '\t')) ==> !has_escape_char(s)
            && escape_chars(s) == s,
        (exists|i: int|
            0 <= i < s.len() && (#[trigger] s[i] == '"' || s[i] == '\\' || s[i] == '\u{8}' || s[i]
                == '\u{c}' || s[i] == '\n' || s[i] == '\r' || s[i] == '\t')) ==> has_escape_char(s),
{
    if forall|i: int|
        0 <= i < s.len() ==> !(#[trigger] s[i] == '"' || s[i] == '\\' || s[i] == '\u{8}' || s[i]
            == '\u{c}' || s[i] == '\n' || s[i] == '\r' || s[i] == '\t') {
        if has_escape_char(s) {
            let i = choose|i: int| 0 <= i < s.len() && is_escape_char(#[trigger] s[i]);
            assert(s[i] == s[i]);
        }
        lemma_escape_chars_identity(s);
    }
    if exists|i: int|
        0 <= i < s.len() && (#[trigger] s[i] == '"' || s[i] == '\\' || s[i] == '\u{8}' || s[i]
            == '\u{c}' || s[i] == '\n' || s[i] == '\r' || s[i] == '\t') {
        let i = choose|i: int|
            0 <= i < s.len() && (#[trigger] s[i] == '"' || s[i] == '\\' || s[i] == '\u{8}' || s[i]
                == '\u{c}' || s[i] == '\n' || s[i] == '\r' || s[i] == '\t');
        assert(is_escape_char(s[i]));
    }
}

} // verus!
