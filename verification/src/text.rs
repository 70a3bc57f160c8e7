//! Text as characters and as UTF-8 bytes: the facts about the encoding that
//! the codec and the editor rest on, and the few operations of `String`
//! that are called with a contract taken on trust.

use vstd::prelude::*;
use vstd::string::*;
use vstd::utf8::*;

verus! {

/// The byte that ends a line.
pub const NEWLINE: u8 = 0x0A;

/// The byte that may precede the end of a line.
pub const CARRIAGE_RETURN: u8 = 0x0D;

/// The texts that a sequence of strings holds.
pub open spec fn texts(v: Seq<String>) -> Seq<Seq<char>> {
    v.map_values(|s: String| s@)
}

/// Encoding a concatenation gives the concatenation of the encodings.
pub proof fn lemma_encode_concat(a: Seq<char>, b: Seq<char>)
    ensures
        encode_utf8(a + b) == encode_utf8(a) + encode_utf8(b),
    decreases a.len(),
{
    if a.len() == 0 {
        assert(a + b =~= b);
        assert(encode_utf8(a) + encode_utf8(b) =~= encode_utf8(b));
    } else {
        assert((a + b).drop_first() =~= a.drop_first() + b);
        lemma_encode_concat(a.drop_first(), b);
        assert(encode_utf8(a + b) =~= encode_utf8(a) + encode_utf8(b));
    }
}

/// Two texts with the same encoding are the same text.
pub proof fn lemma_encode_injective(a: Seq<char>, b: Seq<char>)
    requires
        encode_utf8(a) == encode_utf8(b),
    ensures
        a == b,
{
    encode_utf8_decode_utf8(a);
    encode_utf8_decode_utf8(b);
}

/// The encoding of a single character is never empty.
pub proof fn lemma_encode_scalar_len(c: char)
    ensures
        1 <= encode_scalar(c as u32).len() <= 4,
{
}

/// The encoding of the first `k` characters of a text ends on a character
/// boundary of the encoding of the whole text.
pub proof fn lemma_prefix_is_char_boundary(s: Seq<char>, k: int)
    requires
        0 <= k <= s.len(),
    ensures
        is_char_boundary(encode_utf8(s), encode_utf8(s.take(k)).len() as int),
        encode_utf8(s.take(k)).len() <= encode_utf8(s).len(),
    decreases k,
{
    encode_utf8_valid_utf8(s);
    lemma_encode_concat(s.take(k), s.skip(k));
    assert(s.take(k) + s.skip(k) =~= s);
    if k == 0 {
        assert(s.take(0) =~= Seq::<char>::empty());
    } else {
        let bytes = encode_utf8(s);
        let rest = s.drop_first();
        encode_utf8_first_scalar(s);
        lemma_encode_scalar_len(s[0]);
        assert(pop_first_scalar(bytes) =~= encode_utf8(rest));
        lemma_prefix_is_char_boundary(rest, k - 1);
        assert(s.take(k).drop_first() =~= rest.take(k - 1));
        assert(s.take(k)[0] == s[0]);
        let idx = encode_utf8(s.take(k)).len() as int;
        assert(idx == encode_scalar(s[0] as u32).len() + encode_utf8(rest.take(k - 1)).len());
        assert(idx - length_of_first_scalar(bytes) == encode_utf8(rest.take(k - 1)).len());
    }
}

/// The encoding of a text of one character is the encoding of that character.
pub proof fn lemma_encode_single(c: char)
    ensures
        encode_utf8(seq![c]) == encode_scalar(c as u32),
{
    let one = seq![c];
    assert(one.drop_first() =~= Seq::<char>::empty());
    assert(encode_utf8(one.drop_first()) =~= Seq::<u8>::empty());
    assert(encode_utf8(one) =~= encode_scalar(c as u32) + encode_utf8(one.drop_first()));
}

/// A byte below 0x80 occurs in the encoding of a character only as the
/// encoding of that very character.
pub proof fn lemma_ascii_byte_of_scalar(c: char, i: int, b: u8)
    requires
        0 <= i < encode_scalar(c as u32).len(),
        encode_scalar(c as u32)[i] == b,
        b < 0x80,
    ensures
        c == b as char,
        encode_scalar(c as u32) == seq![b],
{
    let v = c as u32;
    if has_width_1_encoding(v) {
        assert((v & 0x7F) as u8 as u32 == v) by (bit_vector)
            requires
                v <= 0x7F,
        ;
        assert(encode_scalar(v) =~= seq![b]);
        char_u32_cast(c, b as u32);
    } else {
        assert((0xC0u8 | ((v >> 6) & 0x1F) as u8) >= 0x80) by (bit_vector);
        assert((0xE0u8 | ((v >> 12) & 0x0F) as u8) >= 0x80) by (bit_vector);
        assert((0xF0u8 | ((v >> 18) & 0x7) as u8) >= 0x80) by (bit_vector);
        assert((0x80u8 | (v & 0x3F) as u8) >= 0x80) by (bit_vector);
        assert((0x80u8 | ((v >> 6) & 0x3F) as u8) >= 0x80) by (bit_vector);
        assert((0x80u8 | ((v >> 12) & 0x3F) as u8) >= 0x80) by (bit_vector);
    }
}

/// Where a byte below 0x80 stands in the encoding of a text, the text holds
/// the character of the same value.
pub proof fn lemma_ascii_byte_in_encoding(s: Seq<char>, i: int, b: u8)
    requires
        0 <= i < encode_utf8(s).len(),
        encode_utf8(s)[i] == b,
        b < 0x80,
    ensures
        s.contains(b as char),
    decreases s.len(),
{
    if s.len() > 0 {
        let head = encode_scalar(s[0] as u32);
        if i < head.len() {
            lemma_ascii_byte_of_scalar(s[0], i, b);
            assert(s[0] == b as char);
        } else {
            let rest = s.drop_first();
            assert(encode_utf8(rest)[i - head.len()] == b);
            lemma_ascii_byte_in_encoding(rest, i - head.len(), b);
            let k = choose|k: int| 0 <= k < rest.len() && rest[k] == b as char;
            assert(s[k + 1] == rest[k]);
        }
    }
}

/// The last byte of the encoding of a text is a given byte below 0x80
/// exactly when the last character of the text has that value.
pub proof fn lemma_last_ascii_byte(s: Seq<char>, b: u8)
    requires
        s.len() > 0,
        b < 0x80,
    ensures
        encode_utf8(s).len() > 0,
        (encode_utf8(s).last() == b) == (s.last() == b as char),
{
    let front = s.drop_last();
    let end = seq![s.last()];
    assert(front + end =~= s);
    lemma_encode_concat(front, end);
    let tail = encode_scalar(s.last() as u32);
    lemma_encode_single(s.last());
    lemma_encode_scalar_len(s.last());
    assert(encode_utf8(s).last() == tail.last());
    if s.last() == b as char {
        let v = s.last() as u32;
        assert((v & 0x7F) as u8 == b) by (bit_vector)
            requires
                v == b as u32,
                b < 0x80,
        ;
        assert(tail =~= seq![b]);
    }
    if tail.last() == b {
        lemma_ascii_byte_of_scalar(s.last(), tail.len() - 1, b);
    }
}

/// A text begins with another exactly when its encoding begins with the
/// encoding of the other.
pub proof fn lemma_prefix_of_encoding(p: Seq<char>, s: Seq<char>)
    ensures
        p.is_prefix_of(s) <==> encode_utf8(p).is_prefix_of(encode_utf8(s)),
    decreases p.len(),
{
    let ep = encode_utf8(p);
    let es = encode_utf8(s);
    if p.is_prefix_of(s) {
        assert(s =~= p + s.skip(p.len() as int));
        lemma_encode_concat(p, s.skip(p.len() as int));
        assert(ep =~= es.subrange(0, ep.len() as int));
    }
    if ep.is_prefix_of(es) {
        if p.len() == 0 {
            assert(p =~= s.subrange(0, 0));
        } else {
            lemma_encode_scalar_len(p[0]);
            assert(s.len() > 0);
            lemma_encode_scalar_len(s[0]);
            encode_utf8_first_scalar(p);
            encode_utf8_first_scalar(s);
            let n = length_of_first_scalar(ep);
            assert forall|j: int| 0 <= j < n implies ep[j] == es[j] by {
                assert(ep[j] == es.subrange(0, ep.len() as int)[j]);
            }
            assert(decode_first_scalar(ep) == decode_first_scalar(es));
            char_u32_cast(p[0], decode_first_scalar(ep));
            char_u32_cast(s[0], decode_first_scalar(es));
            assert(p[0] == s[0]);
            let pt = p.drop_first();
            let st = s.drop_first();
            assert(ep.skip(n) =~= encode_utf8(pt));
            assert(es.skip(n) =~= encode_utf8(st));
            assert(encode_utf8(pt) =~= encode_utf8(st).subrange(0, encode_utf8(pt).len() as int));
            lemma_prefix_of_encoding(pt, st);
            assert(pt =~= st.subrange(0, pt.len() as int));
            assert(p =~= s.subrange(0, p.len() as int)) by {
                assert forall|j: int| 0 <= j < p.len() implies p[j] == s[j] by {
                    if j > 0 {
                        assert(p[j] == pt[j - 1]);
                        assert(pt[j - 1] == st.subrange(0, pt.len() as int)[j - 1]);
                    }
                }
            }
        }
    }
}

/// Whether the text begins with the characters of the prefix.
pub fn starts_with(s: &str, prefix: &str) -> (found: bool)
    ensures
        found == prefix@.is_prefix_of(s@),
{
    let text = s.as_bytes();
    let wanted = prefix.as_bytes();
    proof {
        lemma_prefix_of_encoding(prefix@, s@);
    }
    if wanted.len() > text.len() {
        return false;
    }
    let mut i: usize = 0;
    while i < wanted.len()
        invariant
            i <= wanted@.len() <= text@.len(),
            prefix@.is_prefix_of(s@) <==> wanted@.is_prefix_of(text@),
            forall|j: int| 0 <= j < i ==> wanted@[j] == text@[j],
        decreases wanted@.len() - i,
    {
        if wanted[i] != text[i] {
            assert(text@.subrange(0, wanted@.len() as int)[i as int] != wanted@[i as int]);
            return false;
        }
        i += 1;
    }
    assert(wanted@ =~= text@.subrange(0, wanted@.len() as int));
    true
}

/// `String::push`: the character is added at the end of the text.
#[verifier::external_body]
pub(crate) fn string_push(s: &mut String, c: char)
    ensures
        final(s)@ == old(s)@.push(c),
{
    s.push(c)
}

/// `String::insert`: the encoding of the character is placed at the byte
/// position, which must lie on a character boundary of the text; the bytes
/// before and after it stay as they are.
#[verifier::external_body]
pub(crate) fn string_insert(s: &mut String, idx: usize, c: char)
    requires
        is_char_boundary(encode_utf8(old(s)@), idx as int),
    ensures
        encode_utf8(final(s)@) == encode_utf8(old(s)@).subrange(0, idx as int) + encode_utf8(
            seq![c],
        ) + encode_utf8(old(s)@).subrange(idx as int, encode_utf8(old(s)@).len() as int),
{
    s.insert(idx, c)
}

/// `String::from_utf8`: the text that the bytes encode, where they are
/// well-formed UTF-8, and nothing where they are not.
#[verifier::external_body]
pub(crate) fn string_from_utf8(bytes: Vec<u8>) -> (text: Option<String>)
    ensures
        text is Some == valid_utf8(bytes@),
        text matches Some(s) ==> s@ == decode_utf8(bytes@),
{
    String::from_utf8(bytes).ok()
}

} // verus!
