//! Walking strings by the byte offsets of their characters.
use vstd::prelude::*;
use vstd::utf8::{
    encode_scalar, encode_utf8, encode_utf8_decode_utf8, encode_utf8_first_scalar,
    encode_utf8_valid_utf8, is_char_boundary, pop_first_scalar,
};

verus! {

pub proof fn lemma_encode_concat(a: Seq<char>, b: Seq<char>)
    ensures
        encode_utf8(a + b) == encode_utf8(a) + encode_utf8(b),
    decreases a.len(),
{
    if a.len() == 0 {
        assert(a + b =~= b);
        assert(encode_utf8(a) + encode_utf8(b) =~= encode_utf8(b));
    } else {
        assert((a + b).drop_first() =~= a.drop_first() + b);
        lemma_encode_concat(a.drop_first(), b);
        assert(encode_utf8(a + b) =~= encode_utf8(a) + encode_utf8(b));
    }
}

pub proof fn lemma_encode_one(c: char)
    ensures
        encode_utf8(seq![c]) == encode_scalar(c as u32),
{
    assert(seq![c].drop_first() =~= Seq::<char>::empty());
    assert(encode_utf8(Seq::<char>::empty()) =~= Seq::<u8>::empty());
    assert(encode_utf8(seq![c]) =~= encode_scalar(c as u32));
}

/// Where the encoding of some first characters ends, a character begins.
proof fn lemma_boundary(a: Seq<char>, b: Seq<char>)
    ensures
        is_char_boundary(encode_utf8(a + b), encode_utf8(a).len() as int),
    decreases a.len(),
{
    let bytes = encode_utf8(a + b);
    encode_utf8_valid_utf8(a + b);
    if a.len() > 0 {
        encode_utf8_first_scalar(a + b);
        assert((a + b).drop_first() =~= a.drop_first() + b);
        assert(pop_first_scalar(bytes) =~= encode_utf8(a.drop_first() + b));
        lemma_boundary(a.drop_first(), b);
        lemma_encode_concat(a, b);
        assert(encode_utf8(a).len() == encode_scalar(a[0] as u32).len() + encode_utf8(
            a.drop_first(),
        ).len());
    }
}

/// Characters are told by their encoding.
proof fn lemma_encode_injective(a: Seq<char>, b: Seq<char>)
    requires
        encode_utf8(a) == encode_utf8(b),
    ensures
        a == b,
{
    encode_utf8_decode_utf8(a);
    encode_utf8_decode_utf8(b);
}

/// How many bytes the encoding of `c` takes.
fn char_width(c: char) -> (width: usize)
    ensures
        width == encode_scalar(c as u32).len(),
        1 <= width <= 4,
{
    let code: u32 = c as u32;
    if code < 0x80 {
        1
    } else if code < 0x800 {
        2
    } else if code < 0x10000 {
        3
    } else {
        4
    }
}

/// The character that starts at `byte_offset`, as a string, and how many bytes it takes.
pub(crate) fn char_at(string: &str, byte_offset: usize, Ghost(index): Ghost<int>) -> (r: (
    String,
    usize,
))
    requires
        0 <= index < string@.len(),
        byte_offset == encode_utf8(string@.take(index)).len(),
    ensures
        r.0@ == seq![string@[index]],
        r.1 == encode_scalar(string@[index] as u32).len(),
        encode_utf8(string@.take(index + 1)).len() == byte_offset + r.1,
        encode_utf8(string@.take(index + 1)).len() <= encode_utf8(string@).len(),
{
    let ghost chars = string@;
    let ghost before = chars.take(index);
    let ghost after = chars.skip(index);
    let ghost c = chars[index];
    proof {
        assert(before + after =~= chars);
        lemma_encode_concat(before, after);
        lemma_boundary(before, after);
    }
    let rest = string.split_at(byte_offset).1;
    proof {
        assert(encode_utf8(chars).subrange(byte_offset as int, encode_utf8(chars).len() as int)
            =~= encode_utf8(after));
        lemma_encode_injective(rest@, after);
    }
    let mut walk = rest.chars();
    let first = walk.next();
    let width: usize = match first {
        Some(first) => char_width(first),
        None => 0,
    };
    proof {
        assert(first == Some(c));
        assert(seq![c] + after.drop_first() =~= after);
        lemma_encode_one(c);
        lemma_boundary(seq![c], after.drop_first());
        lemma_encode_concat(seq![c], after.drop_first());
    }
    let head = rest.split_at(width).0;
    proof {
        assert(encode_utf8(after).subrange(0, width as int) =~= encode_utf8(seq![c]));
        lemma_encode_injective(head@, seq![c]);
        assert(chars.take(index + 1) =~= before + seq![c]);
        lemma_encode_concat(before, seq![c]);
        assert(chars.take(index + 1) + chars.skip(index + 1) =~= chars);
        lemma_encode_concat(chars.take(index + 1), chars.skip(index + 1));
    }
    (head.to_owned(), width)
}

} // verus!
