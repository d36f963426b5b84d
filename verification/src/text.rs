//! Character-level facts about lines of text: prefixes, ASCII characters,
//! and the number of bytes that UTF-8 takes for them.
use vstd::prelude::*;
use vstd::utf8::{encode_scalar, encode_utf8, char_is_scalar};

verus! {

/// A character that UTF-8 writes in one byte.
pub open spec fn is_ascii_char(c: char) -> bool {
    (c as u32) < 128
}

/// The number of bytes of the UTF-8 encoding of `s`.
pub open spec fn byte_len(s: Seq<char>) -> int {
    encode_utf8(s).len() as int
}

/// `s` begins with `p`.
pub open spec fn has_prefix(s: Seq<char>, p: Seq<char>) -> bool {
    p.len() <= s.len() && s.subrange(0, p.len() as int) == p
}

pub proof fn lemma_byte_len_first(s: Seq<char>)
    requires
        s.len() > 0,
    ensures
        byte_len(s) == encode_scalar(s[0] as u32).len() + byte_len(s.drop_first()),
{
}

pub proof fn lemma_byte_len_split(s: Seq<char>, i: int)
    requires
        0 <= i <= s.len(),
    ensures
        byte_len(s) == byte_len(s.take(i)) + byte_len(s.skip(i)),
    decreases i,
{
    if i == 0 {
        assert(s.take(0) =~= Seq::<char>::empty());
        assert(s.skip(0) =~= s);
    } else {
        let d = s.drop_first();
        lemma_byte_len_split(d, i - 1);
        assert(d.skip(i - 1) =~= s.skip(i));
        assert(s.take(i).drop_first() =~= d.take(i - 1));
        lemma_byte_len_first(s);
        lemma_byte_len_first(s.take(i));
    }
}

pub proof fn lemma_byte_len_ascii(s: Seq<char>)
    requires
        forall|i: int| 0 <= i < s.len() ==> is_ascii_char(#[trigger] s[i]),
    ensures
        byte_len(s) == s.len(),
    decreases s.len(),
{
    if s.len() > 0 {
        let d = s.drop_first();
        assert forall|i: int| 0 <= i < d.len() implies is_ascii_char(#[trigger] d[i]) by {
            assert(d[i] == s[i + 1]);
        }
        lemma_byte_len_ascii(d);
        lemma_byte_len_first(s);
    }
}

/// The number of bytes that UTF-8 takes for `c`.
pub fn char_width(c: char) -> (w: u64)
    ensures
        w == encode_scalar(c as u32).len(),
        1 <= w <= 4,
        w == 1 <==> is_ascii_char(c),
{
    proof {
        char_is_scalar(c);
    }
    let v = c as u32;
    if v < 0x80 {
        1
    } else if v < 0x800 {
        2
    } else if v < 0x10000 {
        3
    } else {
        4
    }
}

/// The characters of `s`, in order.
pub fn chars_of(s: &str) -> (v: Vec<char>)
    ensures
        v@ == s@,
{
    let n = s.unicode_len();
    let mut v: Vec<char> = Vec::new();
    let mut i: usize = 0;
    while i < n
        invariant
            n == s@.len(),
            i <= n,
            v@ == s@.take(i as int),
        decreases n - i,
    {
        v.push(s.get_char(i));
        i = i + 1;
        assert(v@ =~= s@.take(i as int));
    }
    assert(v@ =~= s@);
    v
}

/// Whether UTF-8 takes exactly `target` bytes for the characters `cs`.
pub fn byte_len_is(cs: &Vec<char>, target: u64) -> (r: bool)
    ensures
        r == (byte_len(cs@) == target),
{
    let mut i: usize = cs.len();
    let mut total: u64 = 0;
    proof {
        assert(cs@.skip(cs@.len() as int) =~= Seq::<char>::empty());
    }
    while i > 0
        invariant
            i <= cs@.len(),
            total == byte_len(cs@.skip(i as int)),
            total <= target,
        decreases i,
    {
        let w = char_width(cs[i - 1]);
        proof {
            let t = cs@.skip(i - 1);
            assert(t.drop_first() =~= cs@.skip(i as int));
            lemma_byte_len_first(t);
        }
        if w > target - total {
            proof {
                lemma_byte_len_split(cs@, i - 1);
            }
            return false;
        }
        total = total + w;
        i = i - 1;
    }
    assert(cs@.skip(0) =~= cs@);
    total == target
}

/// Whether the characters `cs` begin with those of `p`.
pub fn starts_with_chars(cs: &Vec<char>, p: &Vec<char>) -> (r: bool)
    ensures
        r == has_prefix(cs@, p@),
{
    if p.len() > cs.len() {
        return false;
    }
    let mut i: usize = 0;
    while i < p.len()
        invariant
            p@.len() <= cs@.len(),
            i <= p@.len(),
            forall|j: int| 0 <= j < i ==> cs@[j] == p@[j],
        decreases p@.len() - i,
    {
        if cs[i] != p[i] {
            assert(cs@.subrange(0, p@.len() as int)[i as int] != p@[i as int]);
            return false;
        }
        i = i + 1;
    }
    assert(cs@.subrange(0, p@.len() as int) =~= p@);
    true
}

} // verus!
