//! Byte lengths of UTF-8 text, and string helpers built on them.

use vstd::prelude::*;
use vstd::utf8::*;
use vstd::string::*;

verus! {

/// The number of bytes that `chars` occupies when encoded as UTF-8.
pub open spec fn byte_len(chars: Seq<char>) -> nat {
    encode_utf8(chars).len()
}

/// The number of bytes of the UTF-8 encoding of the single character `c`.
pub open spec fn char_width(c: char) -> nat {
    encode_scalar(c as u32).len()
}

/// Computes the number of bytes that `c` takes in UTF-8.
pub fn utf8_width(c: char) -> (w: usize)
    ensures
        w == char_width(c),
        1 <= w <= 4,
{
    let v: u32 = c as u32;
    proof {
        char_is_scalar(c);
    }
    if v < 0x80 {
        1
    } else if v < 0x800 {
        2
    } else if v < 0x10000 {
        3
    } else {
        4
    }
}

/// The length of a string in bytes.
pub fn str_byte_len(s: &str) -> (n: usize)
    ensures
        n == byte_len(s@),
{
    s.as_bytes().len()
}

/// Whether two strings hold the same text.
pub fn str_equal(a: &str, b: &str) -> (same: bool)
    ensures
        same == (a@ == b@),
{
    let x = a.as_bytes();
    let y = b.as_bytes();
    if x.len() != y.len() {
        return false;
    }
    let mut i: usize = 0;
    while i < x.len()
        invariant
            x@.len() == y@.len(),
            i <= x@.len(),
            x@ == encode_utf8(a@),
            y@ == encode_utf8(b@),
            forall|j: int| 0 <= j < i ==> x@[j] == y@[j],
        decreases x@.len() - i,
    {
        if x[i] != y[i] {
            return false;
        }
        i = i + 1;
    }
    proof {
        assert(x@ =~= y@);
        lemma_encode_injective(a@, b@);
    }
    true
}

/// Encoding distributes over concatenation.
pub proof fn lemma_encode_concat(a: Seq<char>, b: Seq<char>)
    ensures
        encode_utf8(a + b) == encode_utf8(a) + encode_utf8(b),
    decreases a.len(),
{
    if a.len() == 0 {
        assert(a + b =~= b);
        assert(encode_utf8(a) + encode_utf8(b) =~= encode_utf8(b));
    } else {
        lemma_encode_concat(a.drop_first(), b);
        assert((a + b).drop_first() =~= a.drop_first() + b);
        assert((a + b)[0] == a[0]);
        assert(encode_utf8(a + b) =~= encode_utf8(a) + encode_utf8(b));
    }
}

/// Two texts with the same UTF-8 encoding are the same text.
pub proof fn lemma_encode_injective(a: Seq<char>, b: Seq<char>)
    requires
        encode_utf8(a) == encode_utf8(b),
    ensures
        a == b,
{
    encode_utf8_decode_utf8(a);
    encode_utf8_decode_utf8(b);
}

/// The byte length of a prefix never exceeds the byte length of the whole.
pub proof fn lemma_byte_len_take(chars: Seq<char>, k: int)
    requires
        0 <= k <= chars.len(),
    ensures
        byte_len(chars) == byte_len(chars.take(k)) + byte_len(chars.skip(k)),
{
    assert(chars =~= chars.take(k) + chars.skip(k));
    lemma_encode_concat(chars.take(k), chars.skip(k));
}

/// Appending one character to a prefix adds that character's width.
pub proof fn lemma_byte_len_step(chars: Seq<char>, k: int)
    requires
        0 <= k < chars.len(),
    ensures
        byte_len(chars.take(k + 1)) == byte_len(chars.take(k)) + char_width(chars[k]),
{
    let one = seq![chars[k]];
    assert(chars.take(k + 1) =~= chars.take(k) + one);
    lemma_encode_concat(chars.take(k), one);
    assert(one.drop_first() =~= Seq::<char>::empty());
    assert(encode_utf8(one) =~= encode_scalar(chars[k] as u32)) by {
        reveal_with_fuel(encode_utf8, 2);
    }
}

/// The encoding of a text splits, at the byte length of any of its prefixes,
/// into the encodings of that prefix and of the rest, and that byte index is a
/// character boundary.
pub proof fn lemma_split_point(chars: Seq<char>, k: int)
    requires
        0 <= k <= chars.len(),
    ensures
        byte_len(chars.take(k)) <= byte_len(chars),
        is_char_boundary(encode_utf8(chars), byte_len(chars.take(k)) as int),
        encode_utf8(chars).subrange(0, byte_len(chars.take(k)) as int) == encode_utf8(
            chars.take(k),
        ),
        encode_utf8(chars).subrange(byte_len(chars.take(k)) as int, byte_len(chars) as int)
            == encode_utf8(chars.skip(k)),
    decreases k,
{
    let bytes = encode_utf8(chars);
    let head = encode_utf8(chars.take(k));
    let tail = encode_utf8(chars.skip(k));
    assert(chars =~= chars.take(k) + chars.skip(k));
    lemma_encode_concat(chars.take(k), chars.skip(k));
    assert(bytes.subrange(0, head.len() as int) =~= head);
    assert(bytes.subrange(head.len() as int, bytes.len() as int) =~= tail);
    encode_utf8_valid_utf8(chars);
    if k > 0 {
        let rest = chars.drop_first();
        encode_utf8_first_scalar(chars);
        assert(pop_first_scalar(bytes) =~= encode_utf8(rest));
        lemma_split_point(rest, k - 1);
        assert(chars.take(k).drop_first() =~= rest.take(k - 1));
        assert(chars.take(k)[0] == chars[0]);
        assert(head.len() == char_width(chars[0]) + byte_len(rest.take(k - 1)));
        char_is_scalar(chars[0]);
        assert(char_width(chars[0]) >= 1);
    }
}

/// Splits a non-empty string into its first character and the rest.
pub fn split_first<'a>(s: &'a str) -> (r: (char, &'a str))
    requires
        s@.len() > 0,
    ensures
        r.0 == s@[0],
        r.1@ == s@.drop_first(),
{
    let c = s.get_char(0);
    let w = utf8_width(c);
    proof {
        lemma_split_point(s@, 1);
        lemma_byte_len_step(s@, 0);
        assert(s@.take(0) =~= Seq::<char>::empty());
    }
    let (_, tail) = s.split_at(w);
    proof {
        assert(s@.skip(1) =~= s@.drop_first());
        lemma_encode_injective(tail@, s@.drop_first());
    }
    (c, tail)
}

/// Splits a string after its first `k` characters, `n` being the byte length of
/// those characters.
pub(crate) fn split_after<'a>(s: &'a str, n: usize, Ghost(k): Ghost<int>) -> (r: (&'a str, &'a str))
    requires
        0 <= k <= s@.len(),
        n == byte_len(s@.take(k)),
    ensures
        r.0@ == s@.take(k),
        r.1@ == s@.skip(k),
{
    proof {
        lemma_split_point(s@, k);
    }
    let (head, tail) = s.split_at(n);
    proof {
        lemma_encode_injective(head@, s@.take(k));
        lemma_encode_injective(tail@, s@.skip(k));
    }
    (head, tail)
}

} // verus!
