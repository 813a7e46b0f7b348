//! Strings as characters and as bytes: where a character starts among the
//! bytes of a string, and how to cut a string there.

use vstd::prelude::*;
use vstd::utf8::{
    encode_scalar, encode_utf8, encode_utf8_decode_utf8, encode_utf8_first_scalar,
    encode_utf8_valid_utf8, is_char_boundary, length_of_first_scalar, pop_first_scalar,
};

verus! {

/// The number of bytes that the first `n` characters of `chars` take.
pub open spec fn byte_len(chars: Seq<char>, n: int) -> int
    recommends
        0 <= n <= chars.len(),
{
    encode_utf8(chars.take(n)).len() as int
}

/// The bytes of a text are those of its first part, then those of the rest.
pub proof fn lemma_encode_concat(a: Seq<char>, b: Seq<char>)
    ensures
        encode_utf8(a + b) == encode_utf8(a) + encode_utf8(b),
    decreases a.len(),
{
    if a.len() == 0 {
        assert(a + b =~= b);
        assert(encode_utf8(a) + encode_utf8(b) =~= encode_utf8(b));
    } else {
        lemma_encode_concat(a.drop_first(), b);
        assert((a + b).drop_first() =~= a.drop_first() + b);
        assert(encode_utf8(a + b) =~= encode_utf8(a) + encode_utf8(b));
    }
}

/// The first `n` characters of a text take its first `byte_len` bytes.
pub proof fn lemma_byte_len_prefix(chars: Seq<char>, n: int)
    requires
        0 <= n <= chars.len(),
    ensures
        0 <= byte_len(chars, n) <= encode_utf8(chars).len(),
        encode_utf8(chars).subrange(0, byte_len(chars, n)) == encode_utf8(chars.take(n)),
        encode_utf8(chars).subrange(byte_len(chars, n), encode_utf8(chars).len() as int)
            == encode_utf8(chars.skip(n)),
{
    lemma_encode_concat(chars.take(n), chars.skip(n));
    assert(chars.take(n) + chars.skip(n) =~= chars);
    let whole = encode_utf8(chars);
    let head = encode_utf8(chars.take(n));
    let tail = encode_utf8(chars.skip(n));
    assert(whole.subrange(0, head.len() as int) =~= head);
    assert(whole.subrange(head.len() as int, whole.len() as int) =~= tail);
}

/// One more character takes the bytes of that character more.
pub proof fn lemma_byte_len_step(chars: Seq<char>, n: int)
    requires
        0 <= n < chars.len(),
    ensures
        byte_len(chars, n + 1) == byte_len(chars, n) + encode_scalar(chars[n] as u32).len(),
{
    let one = seq![chars[n]];
    lemma_encode_concat(chars.take(n), one);
    assert(chars.take(n) + one =~= chars.take(n + 1));
    assert(encode_utf8(one) =~= encode_scalar(chars[n] as u32)) by {
        reveal_with_fuel(encode_utf8, 2);
    }
}

/// A character starts, or the text ends, behind the bytes of the first `n`
/// characters.
pub proof fn lemma_byte_len_boundary(chars: Seq<char>, n: int)
    requires
        0 <= n <= chars.len(),
    ensures
        is_char_boundary(encode_utf8(chars), byte_len(chars, n)),
    decreases n,
{
    let bytes = encode_utf8(chars);
    encode_utf8_valid_utf8(chars);
    if n == 0 {
        assert(chars.take(0) =~= Seq::<char>::empty());
    } else {
        let rest = chars.drop_first();
        encode_utf8_first_scalar(chars);
        assert(pop_first_scalar(bytes) =~= encode_utf8(rest));
        lemma_byte_len_boundary(rest, n - 1);
        assert(chars.take(n).drop_first() =~= rest.take(n - 1));
        assert(byte_len(chars, n) == length_of_first_scalar(bytes) + byte_len(rest, n - 1));
        lemma_byte_len_prefix(chars, n);
    }
}

/// The number of bytes that `ch` takes.
pub fn utf8_width(ch: char) -> (n: usize)
    ensures
        n == encode_scalar(ch as u32).len(),
        1 <= n <= 4,
{
    let code = ch as u32;
    if code <= 0x7F {
        1
    } else if code <= 0x7FF {
        2
    } else if code <= 0xFFFF {
        3
    } else {
        4
    }
}

/// The part of `source` from byte `from` to byte `to`, where these are the
/// bytes at which the characters `start` and `end` begin.
pub fn slice<'a>(
    source: &'a str,
    from: usize,
    to: usize,
    Ghost(start): Ghost<int>,
    Ghost(end): Ghost<int>,
) -> (part: &'a str)
    requires
        0 <= start <= end <= source@.len(),
        from == byte_len(source@, start),
        to == byte_len(source@, end),
    ensures
        part@ == source@.subrange(start, end),
{
    let ghost chars = source@;
    let ghost head_chars = chars.take(end);
    proof {
        lemma_byte_len_boundary(chars, end);
        lemma_byte_len_prefix(chars, end);
    }
    let (head, _) = source.split_at(to);
    proof {
        encode_utf8_decode_utf8(head@);
        encode_utf8_decode_utf8(head_chars);
        assert(head@ == head_chars);
        assert(head_chars.take(start) =~= chars.take(start));
        lemma_byte_len_boundary(head_chars, start);
        lemma_byte_len_prefix(head_chars, start);
    }
    let (_, part) = head.split_at(from);
    proof {
        encode_utf8_decode_utf8(part@);
        encode_utf8_decode_utf8(head_chars.skip(start));
        assert(head_chars.skip(start) =~= chars.subrange(start, end));
    }
    part
}

/// Whether two strings hold the same characters, decided on their bytes.
pub fn same_text(a: &str, b: &str) -> (same: bool)
    ensures
        same == (a@ == b@),
{
    let x = a.as_bytes();
    let y = b.as_bytes();
    if x.len() != y.len() {
        return false;
    }
    let mut i: usize = 0;
    while i < x.len()
        invariant
            i <= x@.len(),
            x@.len() == y@.len(),
            x@ == encode_utf8(a@),
            y@ == encode_utf8(b@),
            forall|j: int| 0 <= j < i ==> x@[j] == y@[j],
        decreases x@.len() - i,
    {
        if x[i] != y[i] {
            return false;
        }
        i += 1;
    }
    proof {
        assert(x@ =~= y@);
        encode_utf8_decode_utf8(a@);
        encode_utf8_decode_utf8(b@);
    }
    true
}

} // verus!
