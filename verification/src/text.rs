//! Strings as sequences of characters.

use vstd::prelude::*;
use vstd::string::*;
use vstd::utf8::*;

verus! {

/// `String::push` appends the given character to the end of the string.
pub assume_specification[ String::push ](s: &mut String, c: char)
    ensures
        final(s)@ == old(s)@.push(c),
;

/// The byte at which character `k` of `s` begins in the UTF-8 encoding of `s`.
pub open spec fn byte_offset(s: Seq<char>, k: int) -> int {
    encode_utf8(s.take(k)).len() as int
}

/// `s` without the run of `c` that it begins with.
pub open spec fn without_leading(s: Seq<char>, c: char) -> Seq<char>
    decreases s.len(),
{
    if s.len() > 0 && s[0] == c {
        without_leading(s.drop_first(), c)
    } else {
        s
    }
}

/// `s` without the run of `c` that it ends with.
pub open spec fn without_trailing(s: Seq<char>, c: char) -> Seq<char>
    decreases s.len(),
{
    if s.len() > 0 && s.last() == c {
        without_trailing(s.drop_last(), c)
    } else {
        s
    }
}

/// UTF-8 encodes a concatenation piece by piece.
pub proof fn lemma_encode_concat(a: Seq<char>, b: Seq<char>)
    ensures
        encode_utf8(a + b) == encode_utf8(a) + encode_utf8(b),
    decreases a.len(),
{
    if a.len() == 0 {
        assert(a + b == b);
        assert(encode_utf8(a) + encode_utf8(b) == encode_utf8(b));
    } else {
        lemma_encode_concat(a.drop_first(), b);
        assert((a + b).drop_first() == a.drop_first() + b);
        assert(encode_utf8(a + b) == encode_utf8(a) + encode_utf8(b));
    }
}

/// Every character begins at a boundary of the encoding.
proof fn lemma_concat_boundary(a: Seq<char>, b: Seq<char>)
    ensures
        is_char_boundary(encode_utf8(a + b), encode_utf8(a).len() as int),
    decreases a.len(),
{
    let bytes = encode_utf8(a + b);
    encode_utf8_valid_utf8(a + b);
    if a.len() > 0 {
        lemma_concat_boundary(a.drop_first(), b);
        lemma_encode_concat(a, b);
        assert((a + b).drop_first() == a.drop_first() + b);
        encode_utf8_first_scalar(a + b);
        assert(pop_first_scalar(bytes) == encode_utf8(a.drop_first() + b));
        lemma_encode_concat(a.drop_first(), b);
    }
}

/// The encoding of `s` is cut at a character exactly where `s` is.
pub proof fn lemma_byte_offset(s: Seq<char>, k: int)
    requires
        0 <= k <= s.len(),
    ensures
        is_char_boundary(encode_utf8(s), byte_offset(s, k)),
        0 <= byte_offset(s, k) <= encode_utf8(s).len(),
        encode_utf8(s).subrange(0, byte_offset(s, k)) == encode_utf8(s.take(k)),
        encode_utf8(s).subrange(byte_offset(s, k), encode_utf8(s).len() as int) == encode_utf8(
            s.skip(k),
        ),
{
    assert(s.take(k) + s.skip(k) == s);
    lemma_encode_concat(s.take(k), s.skip(k));
    lemma_concat_boundary(s.take(k), s.skip(k));
    assert(encode_utf8(s).subrange(0, byte_offset(s, k)) == encode_utf8(s.take(k)));
    assert(encode_utf8(s).subrange(byte_offset(s, k), encode_utf8(s).len() as int)
        == encode_utf8(s.skip(k)));
}

/// Strings with the same encoding have the same characters.
pub proof fn lemma_encode_injective(a: Seq<char>, b: Seq<char>)
    requires
        encode_utf8(a) == encode_utf8(b),
    ensures
        a == b,
{
    encode_utf8_decode_utf8(a);
    encode_utf8_decode_utf8(b);
}

/// No character is below the null character.
proof fn lemma_least_char(c: char)
    ensures
        '\0' <= c,
{
}

/// An ASCII character takes one byte.
pub proof fn lemma_ascii_first(s: Seq<char>)
    requires
        s.len() > 0,
        s[0] <= '\u{7f}',
    ensures
        byte_offset(s, 1) == 1,
{
    let one = s.take(1);
    assert forall|i: int| 0 <= i < one.len() implies '\0' <= #[trigger] one[i] <= '\u{7f}' by {
        assert(one[i] == s[0]);
        lemma_least_char(s[0]);
    }
    is_ascii_chars_encode_utf8(one);
}

/// `s` cut in two at byte `mid`, where character `k` begins.
pub(crate) fn split_at_char<'a>(s: &'a str, mid: usize, Ghost(k): Ghost<int>) -> (r: (
    &'a str,
    &'a str,
))
    requires
        0 <= k <= s@.len(),
        mid == byte_offset(s@, k),
    ensures
        r.0@ == s@.take(k),
        r.1@ == s@.skip(k),
{
    proof {
        lemma_byte_offset(s@, k);
    }
    let r = s.split_at(mid);
    proof {
        lemma_encode_injective(r.0@, s@.take(k));
        lemma_encode_injective(r.1@, s@.skip(k));
    }
    r
}

/// The characters of `s`, in order.
pub(crate) fn chars_of(s: &str) -> (chars: Vec<char>)
    ensures
        chars@ == s@,
{
    let mut chars: Vec<char> = Vec::new();
    for c in it: s.chars()
        invariant
            chars@ == it.seq().take(it.index()),
    {
        chars.push(c);
        assert(it.seq().take(it.index() + 1) == it.seq().take(it.index()).push(c));
    }
    chars
}

/// Whether `a` and `b` have the same characters.
pub(crate) fn same_text(a: &str, b: &str) -> (r: bool)
    ensures
        r == (a@ == b@),
{
    let a_bytes = a.as_bytes();
    let b_bytes = b.as_bytes();
    if a_bytes.len() != b_bytes.len() {
        return false;
    }
    let mut i: usize = 0;
    while i < a_bytes.len()
        invariant
            i <= a_bytes@.len(),
            a_bytes@.len() == b_bytes@.len(),
            a_bytes@ == encode_utf8(a@),
            b_bytes@ == encode_utf8(b@),
            forall|j: int| 0 <= j < i ==> a_bytes@[j] == b_bytes@[j],
        decreases a_bytes@.len() - i,
    {
        if a_bytes[i] != b_bytes[i] {
            return false;
        }
        i += 1;
    }
    proof {
        assert(a_bytes@ == b_bytes@);
        lemma_encode_injective(a@, b@);
    }
    true
}

} // verus!
