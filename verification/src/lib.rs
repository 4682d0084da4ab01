use vstd::prelude::*;

verus! {

/// The mathematical sum of a sequence of bytes, as an unbounded integer.
pub open spec fn byte_total(s: Seq<u8>) -> int
    decreases s.len(),
{
    if s.len() == 0 {
        0
    } else {
        s[0] + byte_total(s.drop_first())
    }
}

/// The 8-bit wrapping checksum of a sequence of bytes: the sum of all of
/// its bytes, modulo 256.
pub open spec fn sum_bytes(s: Seq<u8>) -> u8 {
    (byte_total(s) % 256) as u8
}

/// Appending a byte adds that byte to the total.
proof fn lemma_byte_total_push(s: Seq<u8>, x: u8)
    ensures
        byte_total(s.push(x)) == byte_total(s) + x,
    decreases s.len(),
{
    if s.len() == 0 {
        assert(s.push(x)[0] == x);
        assert(s.push(x).drop_first() =~= Seq::<u8>::empty());
        assert(byte_total(s.push(x)) == x + byte_total(Seq::<u8>::empty()));
    } else {
        assert(s.push(x)[0] == s[0]);
        assert(s.push(x).drop_first() =~= s.drop_first().push(x));
        lemma_byte_total_push(s.drop_first(), x);
        assert(byte_total(s.push(x)) == s[0] + byte_total(s.drop_first().push(x)));
    }
}

/// Removing the byte at index `i` subtracts that byte from the total.
proof fn lemma_byte_total_remove(s: Seq<u8>, i: int)
    requires
        0 <= i < s.len(),
    ensures
        byte_total(s.remove(i)) == byte_total(s) - s[i],
    decreases i,
{
    if i == 0 {
        assert(s.remove(0) =~= s.drop_first());
    } else {
        assert(s.remove(i)[0] == s[0]);
        assert(s.remove(i).drop_first() =~= s.drop_first().remove(i - 1));
        lemma_byte_total_remove(s.drop_first(), i - 1);
    }
}

/// The byte total depends only on the multiset of bytes, not on their order.
proof fn lemma_byte_total_permutation(s: Seq<u8>, t: Seq<u8>)
    requires
        s.to_multiset() == t.to_multiset(),
    ensures
        byte_total(s) == byte_total(t),
    decreases s.len(),
{
    broadcast use vstd::seq_lib::group_to_multiset_ensures;

    if s.len() == 0 {
        assert(t.to_multiset().len() == 0);
    } else {
        assert(s.contains(s[0]));
        assert(t.to_multiset().count(s[0]) > 0);
        assert(t.contains(s[0]));
        let i = choose|i: int| 0 <= i < t.len() && t[i] == s[0];
        assert(s.drop_first() =~= s.remove(0));
        assert(s.remove(0).to_multiset() =~= t.remove(i).to_multiset());
        lemma_byte_total_permutation(s.drop_first(), t.remove(i));
        lemma_byte_total_remove(t, i);
    }
}

/// Order-independence: the wrapping checksum of a sequence of bytes is the
/// same for every ordering of the same multiset of bytes.
pub proof fn lemma_sum_bytes_permutation(s: Seq<u8>, t: Seq<u8>)
    requires
        s.to_multiset() == t.to_multiset(),
    ensures
        sum_bytes(s) == sum_bytes(t),
{
    lemma_byte_total_permutation(s, t);
}

/// Wrapping add (sum % 256) the bytes of a slice.
pub fn sum_slice(data: &[u8]) -> (r: u8)
    ensures
        r == sum_bytes(data@),
        r as int == byte_total(data@) % 256,
{
    let mut acc: u8 = 0;
    let mut i: usize = 0;
    while i < data.len()
        invariant
            i <= data.len(),
            acc as int == byte_total(data@.take(i as int)) % 256,
        decreases data.len() - i,
    {
        let b = data[i];
        proof {
            let pre = data@.take(i as int);
            lemma_byte_total_push(pre, data@[i as int]);
            assert(data@.take(i as int + 1) =~= pre.push(data@[i as int]));
            vstd::arithmetic::div_mod::lemma_add_mod_noop(byte_total(pre), b as int, 256);
        }
        acc = acc.wrapping_add(b);
        i = i + 1;
    }
    proof {
        assert(data@.take(data@.len() as int) =~= data@);
    }
    acc
}

} // verus!
