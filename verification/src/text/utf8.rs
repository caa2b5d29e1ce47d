//! The length of texts in bytes.

use vstd::prelude::*;

verus! {

/// The number of bytes of a character in UTF-8.
pub open spec fn utf8_len(c: char) -> int {
    let n = c as int;
    if n < 0x80 {
        1
    } else if n < 0x800 {
        2
    } else if n < 0x1_0000 {
        3
    } else {
        4
    }
}

/// The number of bytes of a text in UTF-8.
pub open spec fn byte_len(s: Seq<char>) -> int
    decreases s.len(),
{
    if s.len() == 0 {
        0
    } else {
        byte_len(s.drop_last()) + utf8_len(s.last())
    }
}

pub fn char_bytes(c: char) -> (r: usize)
    ensures
        r == utf8_len(c),
        1 <= r <= 4,
{
    let n: u32 = c as u32;
    if n < 0x80 {
        1
    } else if n < 0x800 {
        2
    } else if n < 0x1_0000 {
        3
    } else {
        4
    }
}

proof fn lemma_byte_len_grows(s: Seq<char>, k: int)
    requires
        0 <= k <= s.len(),
    ensures
        byte_len(s.take(k)) <= byte_len(s),
    decreases s.len() - k,
{
    if k < s.len() {
        assert(s.take(k + 1).drop_last() =~= s.take(k));
        lemma_byte_len_grows(s, k + 1);
    } else {
        assert(s.take(k) =~= s);
    }
}

/// The characters `from..to` have more than `limit` bytes.
pub fn longer_than(v: &[char], from: usize, to: usize, limit: usize) -> (r: bool)
    requires
        from <= to <= v@.len(),
        limit <= 1000,
    ensures
        r == (byte_len(v@.subrange(from as int, to as int)) > limit),
{
    let ghost s = v@.subrange(from as int, to as int);
    let mut bytes: usize = 0;
    let mut i: usize = from;
    assert(s.take(0) =~= seq![]);
    while i < to
        invariant
            from <= i <= to <= v@.len(),
            s == v@.subrange(from as int, to as int),
            limit <= 1000,
            bytes <= limit,
            bytes == byte_len(s.take(i - from)),
        decreases to - i,
    {
        proof {
            assert(s.take(i - from + 1).drop_last() =~= s.take(i - from));
            assert(s.take(i - from + 1).last() == v@[i as int]);
        }
        bytes = bytes + char_bytes(v[i]);
        i = i + 1;
        if bytes > limit {
            proof {
                lemma_byte_len_grows(s, i - from);
            }
            return true;
        }
    }
    assert(s.take(i - from) =~= s);
    false
}

} // verus!
