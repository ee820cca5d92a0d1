//! The byte layout of length prefixes: an unsigned integer of four or eight
//! bytes in either byte order, and the frame a peer sends (a big-endian
//! `u32` length followed by the body).

use vstd::prelude::*;
use crate::settings::OrderOptions;

verus! {

/// `256` to the power `n`: the number of values `n` bytes can hold.
pub open spec fn byte_bound(n: nat) -> nat
    decreases n,
{
    if n == 0 {
        1
    } else {
        256 * byte_bound((n - 1) as nat)
    }
}

/// The number that `s` denotes when its first byte is the least significant.
pub open spec fn le_value(s: Seq<u8>) -> nat
    decreases s.len(),
{
    if s.len() == 0 {
        0
    } else {
        s[0] as nat + 256 * le_value(s.drop_first())
    }
}

/// The number that `s` denotes when its first byte is the most significant.
pub open spec fn be_value(s: Seq<u8>) -> nat
    decreases s.len(),
{
    if s.len() == 0 {
        0
    } else {
        be_value(s.drop_last()) * 256 + s.last() as nat
    }
}

/// The number that `s` denotes in byte order `order`.
pub open spec fn order_value(s: Seq<u8>, order: OrderOptions) -> nat {
    match order {
        OrderOptions::LittleEndian => le_value(s),
        OrderOptions::BigEndian => be_value(s),
    }
}

pub proof fn lemma_byte_bound_values()
    ensures
        byte_bound(4) == 0x1_0000_0000,
        byte_bound(8) == 0x1_0000_0000_0000_0000,
{
    reveal_with_fuel(byte_bound, 9);
}

pub proof fn lemma_byte_bound_mono(a: nat, b: nat)
    requires
        a <= b,
    ensures
        byte_bound(a) <= byte_bound(b),
    decreases b,
{
    if a < b {
        lemma_byte_bound_mono(a, (b - 1) as nat);
    }
}

pub proof fn lemma_le_value_bound(s: Seq<u8>)
    ensures
        le_value(s) < byte_bound(s.len()),
    decreases s.len(),
{
    if s.len() > 0 {
        lemma_le_value_bound(s.drop_first());
    }
}

pub proof fn lemma_be_value_bound(s: Seq<u8>)
    ensures
        be_value(s) < byte_bound(s.len()),
    decreases s.len(),
{
    if s.len() > 0 {
        lemma_be_value_bound(s.drop_last());
    }
}

/// Appending a byte at the most significant end of a little-endian number.
pub proof fn lemma_le_value_push(s: Seq<u8>, b: u8)
    ensures
        le_value(s.push(b)) == le_value(s) + byte_bound(s.len()) * b,
    decreases s.len(),
{
    if s.len() == 0 {
        assert(s.push(b).drop_first() =~= Seq::<u8>::empty());
        assert(le_value(Seq::<u8>::empty()) == 0);
        assert(byte_bound(0) == 1);
    } else {
        assert(s.push(b).drop_first() =~= s.drop_first().push(b));
        assert(s.push(b)[0] == s[0]);
        lemma_le_value_push(s.drop_first(), b);
        assert(byte_bound(s.len()) * b == 256 * (byte_bound(s.drop_first().len()) * b)) by (nonlinear_arith)
            requires byte_bound(s.len()) == 256 * byte_bound(s.drop_first().len());
    }
}

/// The big-endian reading of `s` is the little-endian reading of `s` reversed.
pub proof fn lemma_be_value_reverse(s: Seq<u8>)
    ensures
        be_value(s) == le_value(s.reverse()),
    decreases s.len(),
{
    if s.len() > 0 {
        let r = s.reverse();
        assert(r.drop_first() =~= s.drop_last().reverse());
        assert(r[0] == s.last());
        lemma_be_value_reverse(s.drop_last());
    }
}

/// Two byte strings of one length that denote the same little-endian number are equal.
pub proof fn lemma_le_value_injective(s1: Seq<u8>, s2: Seq<u8>)
    requires
        s1.len() == s2.len(),
        le_value(s1) == le_value(s2),
    ensures
        s1 == s2,
    decreases s1.len(),
{
    if s1.len() > 0 {
        let a = le_value(s1.drop_first());
        let b = le_value(s2.drop_first());
        assert(s1[0] as int == s2[0] as int && a == b) by (nonlinear_arith)
            requires
                s1[0] as int + 256 * a == s2[0] as int + 256 * b,
                0 <= s1[0] < 256,
                0 <= s2[0] < 256,
                a >= 0,
                b >= 0,
        ;
        lemma_le_value_injective(s1.drop_first(), s2.drop_first());
        assert(s1 =~= seq![s1[0]] + s1.drop_first());
        assert(s2 =~= seq![s2[0]] + s2.drop_first());
    }
}

/// Two byte strings of one length that denote the same number in one byte order are equal.
pub proof fn lemma_order_value_injective(s1: Seq<u8>, s2: Seq<u8>, order: OrderOptions)
    requires
        s1.len() == s2.len(),
        order_value(s1, order) == order_value(s2, order),
    ensures
        s1 == s2,
{
    match order {
        OrderOptions::LittleEndian => lemma_le_value_injective(s1, s2),
        OrderOptions::BigEndian => {
            lemma_be_value_reverse(s1);
            lemma_be_value_reverse(s2);
            lemma_le_value_injective(s1.reverse(), s2.reverse());
            assert(s1 =~= s1.reverse().reverse());
            assert(s2 =~= s2.reverse().reverse());
        },
    }
}

/// Reads an unsigned number of at most eight bytes in byte order `order`.
pub fn decode_uint(bytes: &[u8], order: OrderOptions) -> (v: u64)
    requires
        bytes@.len() <= 8,
    ensures
        v as nat == order_value(bytes@, order),
{
    let n = bytes.len();
    proof {
        lemma_byte_bound_values();
    }
    match order {
        OrderOptions::LittleEndian => {
            let mut acc: u64 = 0;
            let mut i: usize = n;
            assert(bytes@.subrange(n as int, n as int) =~= Seq::<u8>::empty());
            while i > 0
                invariant
                    n == bytes@.len(),
                    n <= 8,
                    i <= n,
                    byte_bound(8) == 0x1_0000_0000_0000_0000,
                    acc as nat == le_value(bytes@.subrange(i as int, n as int)),
                decreases i,
            {
                let ghost tail = bytes@.subrange(i as int, n as int);
                let ghost next = bytes@.subrange(i - 1, n as int);
                assert(next.drop_first() =~= tail);
                proof {
                    lemma_le_value_bound(next);
                    lemma_byte_bound_mono(next.len(), 8);
                }
                acc = bytes[i - 1] as u64 + 256 * acc;
                i = i - 1;
            }
            assert(bytes@.subrange(0, n as int) =~= bytes@);
            acc
        },
        OrderOptions::BigEndian => {
            let mut acc: u64 = 0;
            let mut i: usize = 0;
            assert(bytes@.subrange(0, 0) =~= Seq::<u8>::empty());
            while i < n
                invariant
                    n == bytes@.len(),
                    n <= 8,
                    i <= n,
                    byte_bound(8) == 0x1_0000_0000_0000_0000,
                    acc as nat == be_value(bytes@.subrange(0, i as int)),
                decreases n - i,
            {
                let ghost head = bytes@.subrange(0, i as int);
                let ghost next = bytes@.subrange(0, i + 1);
                assert(next.drop_last() =~= head);
                proof {
                    lemma_be_value_bound(next);
                    lemma_byte_bound_mono(next.len(), 8);
                }
                acc = acc * 256 + bytes[i] as u64;
                i = i + 1;
            }
            assert(bytes@.subrange(0, n as int) =~= bytes@);
            acc
        },
    }
}

/// Writes `v` as an unsigned number of `width` bytes in byte order `order`.
pub fn encode_uint(v: u64, width: usize, order: OrderOptions) -> (bytes: Vec<u8>)
    requires
        width <= 8,
        v < byte_bound(width as nat),
    ensures
        bytes@.len() == width,
        order_value(bytes@, order) == v,
{
    let mut le: Vec<u8> = Vec::new();
    let mut rest: u64 = v;
    let mut i: usize = 0;
    assert(le_value(le@) == 0 && byte_bound(0) == 1);
    while i < width
        invariant
            i <= width,
            le@.len() == i,
            le_value(le@) + byte_bound(i as nat) * rest == v,
            rest < byte_bound((width - i) as nat),
        decreases width - i,
    {
        let b = (rest % 256) as u8;
        proof {
            lemma_le_value_push(le@, b);
            assert(byte_bound(i as nat) * rest == byte_bound(i as nat) * b + byte_bound((i + 1) as nat) * (rest / 256)) by (nonlinear_arith)
                requires
                    byte_bound((i + 1) as nat) == 256 * byte_bound(i as nat),
                    b == rest % 256,
            ;
            assert(rest / 256 < byte_bound((width - (i + 1)) as nat)) by (nonlinear_arith)
                requires
                    rest < byte_bound((width - i) as nat),
                    byte_bound((width - i) as nat) == 256 * byte_bound((width - (i + 1)) as nat),
            ;
        }
        le.push(b);
        rest = rest / 256;
        i = i + 1;
    }
    assert(rest == 0);
    match order {
        OrderOptions::LittleEndian => le,
        OrderOptions::BigEndian => {
            let mut be: Vec<u8> = Vec::new();
            let mut j: usize = 0;
            while j < width
                invariant
                    j <= width,
                    le@.len() == width,
                    be@.len() == j,
                    forall|k: int| 0 <= k < j ==> be@[k] == le@[width - 1 - k],
                decreases width - j,
            {
                be.push(le[width - 1 - j]);
                j = j + 1;
            }
            proof {
                assert(be@ =~= le@.reverse());
                lemma_be_value_reverse(be@);
                assert(be@.reverse() =~= le@);
            }
            be
        },
    }
}

} // verus!
