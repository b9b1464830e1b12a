//! UTF-8 facts about the character sequences this crate writes, and the
//! conversion of finished byte buffers into `String`s.

use vstd::prelude::*;
use vstd::utf8::*;
use crate::json::number::{nat_text, push_nat};

verus! {

/// The UTF-8 encoding of a concatenation is the concatenation of the encodings.
pub proof fn lemma_encode_concat(a: Seq<char>, b: Seq<char>)
    ensures
        encode_utf8(a + b) == encode_utf8(a) + encode_utf8(b),
    decreases a.len(),
{
    if a.len() == 0 {
        assert(a + b =~= b);
        assert(encode_utf8(a) =~= Seq::<u8>::empty());
        assert(encode_utf8(a) + encode_utf8(b) =~= encode_utf8(b));
    } else {
        lemma_encode_concat(a.drop_first(), b);
        assert((a + b).drop_first() =~= a.drop_first() + b);
        assert((a + b)[0] == a[0]);
        assert(encode_utf8(a + b) =~= encode_scalar(a[0] as u32) + encode_utf8(a.drop_first() + b));
        assert(encode_utf8(a) =~= encode_scalar(a[0] as u32) + encode_utf8(a.drop_first()));
    }
}

/// An ASCII character is encoded as the single byte of its code.
pub proof fn lemma_encode_ascii_char(c: char)
    requires
        (c as u32) < 128,
    ensures
        encode_utf8(seq![c]) == seq![c as u8],
{
    let s = c as u32;
    assert(leading_byte_width_1(s) == s as u8) by (bit_vector)
        requires
            s < 128,
    ;
    assert(seq![c].drop_first() =~= Seq::<char>::empty());
    assert(encode_utf8(seq![c].drop_first()) =~= Seq::<u8>::empty());
    assert(encode_utf8(seq![c]) =~= encode_scalar(s) + encode_utf8(seq![c].drop_first()));
}


/// Two texts with the same UTF-8 encoding are equal.
pub proof fn lemma_encode_injective(a: Seq<char>, b: Seq<char>)
    requires
        encode_utf8(a) == encode_utf8(b),
    ensures
        a == b,
{
    encode_utf8_decode_utf8(a);
    encode_utf8_decode_utf8(b);
}

#[verifier::external_type_specification]
#[verifier::external_body]
pub struct ExFromUtf8Error(std::string::FromUtf8Error);

/// `String::from_utf8`. Its documentation states that it returns `Ok` exactly
/// when the bytes are valid UTF-8, and that the string then holds those bytes
/// (taken over without copying).
#[verifier::external_body]
fn string_from_utf8(bytes: Vec<u8>) -> (r: Result<String, std::string::FromUtf8Error>)
    ensures
        r is Ok <==> valid_utf8(bytes@),
        r matches Ok(s) ==> encode_utf8(s@) == bytes@,
{
    String::from_utf8(bytes)
}

/// The string whose UTF-8 encoding is `bytes`, where `bytes` encodes `chars`.
pub(crate) fn string_from_encoded(bytes: Vec<u8>, Ghost(chars): Ghost<Seq<char>>) -> (s: String)
    requires
        bytes@ == encode_utf8(chars),
    ensures
        s@ == chars,
{
    proof {
        encode_utf8_valid_utf8(chars);
    }
    let r = string_from_utf8(bytes);
    let s = r.unwrap();
    proof {
        lemma_encode_injective(s@, chars);
    }
    s
}

/// Appends the UTF-8 bytes of `s` to `out`.
pub(crate) fn push_str_bytes(out: &mut Vec<u8>, s: &str)
    ensures
        final(out)@ == old(out)@ + encode_utf8(s@),
{
    let bytes = s.as_bytes();
    let mut i: usize = 0;
    while i < bytes.len()
        invariant
            0 <= i <= bytes@.len(),
            bytes@ == encode_utf8(s@),
            out@ == old(out)@ + bytes@.take(i as int),
        decreases bytes@.len() - i,
    {
        out.push(bytes[i]);
        i += 1;
        assert(out@ =~= old(out)@ + bytes@.take(i as int));
    }
    assert(bytes@.take(i as int) =~= bytes@);
}

/// Appends one ASCII character to `out`.
pub(crate) fn push_ascii(out: &mut Vec<u8>, c: u8)
    requires
        c < 128,
    ensures
        final(out)@ == old(out)@ + encode_utf8(seq![c as char]),
{
    proof {
        lemma_encode_ascii_char(c as char);
        assert((c as char) as u8 == c);
    }
    out.push(c);
}


/// Whether two texts are equal, decided on their UTF-8 bytes.
pub fn str_eq(a: &str, b: &str) -> (same: bool)
    ensures
        same == (a@ == b@),
{
    let x = a.as_bytes();
    let y = b.as_bytes();
    if x.len() != y.len() {
        proof {
            if a@ == b@ {
                assert(x@ == y@);
            }
        }
        return false;
    }
    let mut i: usize = 0;
    while i < x.len()
        invariant
            0 <= i <= x@.len(),
            x@.len() == y@.len(),
            x@ == encode_utf8(a@),
            y@ == encode_utf8(b@),
            forall|j: int| 0 <= j < i ==> x@[j] == y@[j],
        decreases x@.len() - i,
    {
        if x[i] != y[i] {
            proof {
                if a@ == b@ {
                    assert(x@ == y@);
                }
            }
            return false;
        }
        i += 1;
    }
    proof {
        assert(x@ =~= y@);
        lemma_encode_injective(a@, b@);
    }
    true
}


/// A string under construction, kept as UTF-8 bytes together with the text
/// they encode.
pub struct TextBuilder {
    bytes: Vec<u8>,
    text: Ghost<Seq<char>>,
}

impl View for TextBuilder {
    type V = Seq<char>;

    closed spec fn view(&self) -> Seq<char> {
        self.text@
    }
}

impl TextBuilder {
    #[verifier::type_invariant]
    spec fn encodes_text(self) -> bool {
        self.bytes@ == encode_utf8(self.text@)
    }

    /// An empty text.
    pub fn new() -> (b: TextBuilder)
        ensures
            b@ == Seq::<char>::empty(),
    {
        TextBuilder { bytes: Vec::new(), text: Ghost(Seq::empty()) }
    }

    /// Appends `s`.
    pub fn push_str(&mut self, s: &str)
        ensures
            final(self)@ == old(self)@ + s@,
    {
        let (mut bytes, Ghost(t)) = self.take();
        push_str_bytes(&mut bytes, s);
        proof {
            lemma_encode_concat(t, s@);
        }
        *self = TextBuilder { bytes, text: Ghost(t + s@) };
    }

    /// Appends the decimal digits of `n`.
    pub fn push_nat(&mut self, n: u64)
        ensures
            final(self)@ == old(self)@ + nat_text(n as nat),
    {
        let (mut bytes, Ghost(t)) = self.take();
        push_nat(&mut bytes, n);
        proof {
            lemma_encode_concat(t, nat_text(n as nat));
        }
        *self = TextBuilder { bytes, text: Ghost(t + nat_text(n as nat)) };
    }

    /// Moves the contents out, leaving an empty text behind.
    fn take(&mut self) -> (parts: (Vec<u8>, Ghost<Seq<char>>))
        ensures
            parts.1@ == old(self)@,
            parts.0@ == encode_utf8(parts.1@),
    {
        let mut other = TextBuilder::new();
        std::mem::swap(&mut other, self);
        proof {
            use_type_invariant(&other);
        }
        let TextBuilder { bytes, text } = other;
        (bytes, text)
    }

    /// The finished string.
    pub fn finish(self) -> (s: String)
        ensures
            s@ == self@,
    {
        proof {
            use_type_invariant(&self);
        }
        string_from_encoded(self.bytes, self.text)
    }
}

} // verus!
