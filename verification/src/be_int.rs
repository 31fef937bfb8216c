//! Unsigned integers written as bytes, most significant byte first, and the
//! arithmetic on 32-byte integers that scalars of the group need.

use vstd::prelude::*;

verus! {

/// 256 raised to the power `k`.
pub open spec fn pow256(k: nat) -> nat
    decreases k,
{
    if k == 0 {
        1
    } else {
        256 * pow256((k - 1) as nat)
    }
}

/// The number that a byte string denotes when it is read most significant byte first.
pub open spec fn be_value(s: Seq<u8>) -> nat
    decreases s.len(),
{
    if s.len() == 0 {
        0
    } else {
        be_value(s.drop_last()) * 256 + s.last() as nat
    }
}

/// The `len` least significant base-256 digits of `v`, most significant first.
pub open spec fn be_encode(v: nat, len: nat) -> Seq<u8>
    decreases len,
{
    if len == 0 {
        Seq::empty()
    } else {
        be_encode(v / 256, (len - 1) as nat).push((v % 256) as u8)
    }
}

/// The order `n` of the secp256k1 group, as 32 bytes.
pub open spec fn group_order_bytes() -> Seq<u8> {
    seq![
        0xffu8, 0xff, 0xff, 0xff, 0xff, 0xff, 0xff, 0xff,
        0xff, 0xff, 0xff, 0xff, 0xff, 0xff, 0xff, 0xfe,
        0xba, 0xae, 0xdc, 0xe6, 0xaf, 0x48, 0xa0, 0x3b,
        0xbf, 0xd2, 0x5e, 0x8c, 0xd0, 0x36, 0x41, 0x41,
    ]
}

/// The order `n` of the secp256k1 group.
pub open spec fn group_order() -> nat {
    be_value(group_order_bytes())
}

/// A larger exponent gives a power that is not smaller.
pub proof fn lemma_pow256_monotonic(j: nat, k: nat)
    requires
        j <= k,
    ensures
        pow256(j) <= pow256(k),
    decreases k,
{
    if j < k {
        lemma_pow256_monotonic(j, (k - 1) as nat);
    }
}

/// A string of `len` bytes denotes a number below `256^len`.
pub proof fn lemma_be_value_bound(s: Seq<u8>)
    ensures
        be_value(s) < pow256(s.len()),
    decreases s.len(),
{
    if s.len() > 0 {
        lemma_be_value_bound(s.drop_last());
    }
}

/// Reading `a` followed by `b` shifts the value of `a` left by the length of `b`.
pub proof fn lemma_be_value_append(a: Seq<u8>, b: Seq<u8>)
    ensures
        be_value(a + b) == be_value(a) * pow256(b.len()) + be_value(b),
    decreases b.len(),
{
    if b.len() == 0 {
        assert(a + b =~= a);
        assert(pow256(b.len()) == 1);
        assert(be_value(b) == 0);
    } else {
        let rest = b.drop_last();
        assert((a + b).drop_last() =~= a + rest);
        assert((a + b).last() == b.last());
        lemma_be_value_append(a, rest);
        let p = pow256(rest.len());
        assert(pow256(b.len()) == 256 * p);
        assert(be_value(a + b) == be_value(a + rest) * 256 + b.last() as nat);
        assert(be_value(b) == be_value(rest) * 256 + b.last() as nat);
        let va = be_value(a);
        let vr = be_value(rest);
        assert((va * p + vr) * 256 == va * (256 * p) + vr * 256) by (nonlinear_arith);
    }
}

/// The value of a string with its first byte split off.
pub proof fn lemma_be_value_first(s: Seq<u8>)
    requires
        s.len() > 0,
    ensures
        be_value(s) == s[0] as nat * pow256((s.len() - 1) as nat) + be_value(
            s.subrange(1, s.len() as int),
        ),
{
    let head = s.subrange(0, 1);
    let tail = s.subrange(1, s.len() as int);
    assert(head + tail =~= s);
    lemma_be_value_append(head, tail);
    assert(head.drop_last() =~= Seq::<u8>::empty());
    assert(be_value(head) == s[0] as nat) by {
        assert(be_value(head.drop_last()) == 0);
        assert(head.last() == s[0]);
    }
}

/// An encoding into `len` digits has `len` bytes.
pub proof fn lemma_be_encode_len(v: nat, len: nat)
    ensures
        be_encode(v, len).len() == len,
    decreases len,
{
    if len > 0 {
        lemma_be_encode_len(v / 256, (len - 1) as nat);
    }
}

/// Encoding a number that fits into `len` digits and reading back gives the number.
pub proof fn lemma_be_value_of_encode(v: nat, len: nat)
    requires
        v < pow256(len),
    ensures
        be_value(be_encode(v, len)) == v,
    decreases len,
{
    if len > 0 {
        let e = be_encode(v, len);
        let rest = be_encode(v / 256, (len - 1) as nat);
        lemma_be_encode_len(v / 256, (len - 1) as nat);
        assert(e.drop_last() =~= rest);
        assert(v / 256 < pow256((len - 1) as nat)) by {
            let p = pow256((len - 1) as nat);
            assert(v < 256 * p);
            assert(v / 256 < p) by (nonlinear_arith)
                requires
                    v < 256 * p,
            ;
        }
        lemma_be_value_of_encode(v / 256, (len - 1) as nat);
        assert(e.last() == (v % 256) as u8);
        assert(v == (v / 256) * 256 + v % 256) by (nonlinear_arith);
    }
}

/// Reading and encoding back at the same length gives the string.
pub proof fn lemma_be_encode_of_value(s: Seq<u8>)
    ensures
        be_encode(be_value(s), s.len()) == s,
    decreases s.len(),
{
    if s.len() == 0 {
        assert(be_encode(be_value(s), 0) =~= s);
    } else {
        let v = be_value(s);
        let rest = s.drop_last();
        lemma_be_encode_of_value(rest);
        let w = be_value(rest);
        let l = s.last() as nat;
        assert(v == w * 256 + l);
        assert(v / 256 == w && v % 256 == l) by (nonlinear_arith)
            requires
                v == w * 256 + l,
                l < 256,
        ;
        assert(be_encode(v, s.len()) =~= s);
    }
}

/// The group order lies strictly between `2^64` and `256^32`, above half of the latter.
pub proof fn lemma_group_order_range()
    ensures
        group_order() > u64::MAX,
        group_order() < pow256(32),
        2 * group_order() >= pow256(32),
{
    let n = group_order_bytes();
    assert(n.len() == 32);
    lemma_be_value_bound(n);
    lemma_be_value_first(n);
    assert(n[0] == 0xff);
    let p = pow256(31);
    assert(pow256(32) == 256 * p);
    lemma_pow256_monotonic(8, 31);
    assert(pow256(8) == 0x1_0000_0000_0000_0000) by {
        reveal_with_fuel(pow256, 9);
    }
}

/// Whether `a` denotes a smaller number than `b`.
pub fn be_less(a: &[u8; 32], b: &[u8; 32]) -> (r: bool)
    ensures
        r == (be_value(a@) < be_value(b@)),
{
    let mut less: bool = false;
    let mut greater: bool = false;
    let mut i: usize = 0;
    while i < 32
        invariant
            i <= 32,
            less == (be_value(a@.subrange(0, i as int)) < be_value(b@.subrange(0, i as int))),
            greater == (be_value(a@.subrange(0, i as int)) > be_value(b@.subrange(0, i as int))),
        decreases 32 - i,
    {
        proof {
            let pa = a@.subrange(0, i + 1);
            let pb = b@.subrange(0, i + 1);
            assert(pa.drop_last() =~= a@.subrange(0, i as int));
            assert(pb.drop_last() =~= b@.subrange(0, i as int));
            assert(pa.last() == a@[i as int]);
            assert(pb.last() == b@[i as int]);
        }
        if !less && !greater {
            less = a[i] < b[i];
            greater = a[i] > b[i];
        }
        i = i + 1;
    }
    proof {
        assert(a@.subrange(0, 32) =~= a@);
        assert(b@.subrange(0, 32) =~= b@);
    }
    less
}

/// Whether `a` denotes zero.
pub fn be_is_zero(a: &[u8; 32]) -> (r: bool)
    ensures
        r == (be_value(a@) == 0),
{
    let mut zero: bool = true;
    let mut i: usize = 0;
    while i < 32
        invariant
            i <= 32,
            zero == (be_value(a@.subrange(0, i as int)) == 0),
        decreases 32 - i,
    {
        proof {
            let pa = a@.subrange(0, i + 1);
            assert(pa.drop_last() =~= a@.subrange(0, i as int));
            assert(pa.last() == a@[i as int]);
        }
        if a[i] != 0 {
            zero = false;
        }
        i = i + 1;
    }
    proof {
        assert(a@.subrange(0, 32) =~= a@);
    }
    zero
}

/// One digit of a subtraction with borrow: the digits `ai`, `bi`, `ri` join the
/// numbers `av`, `bv`, `rv` of the lower digits, the borrow `bo` comes in, `bn` goes out.
proof fn lemma_sub_step(
    av: nat,
    bv: nat,
    rv: nat,
    ai: nat,
    bi: nat,
    ri: nat,
    bo: nat,
    bn: nat,
    p: nat,
)
    requires
        av + bo * p == bv + rv,
        ai + 256 * bn == bi + bo + ri,
    ensures
        (ai * p + av) + bn * (256 * p) == (bi * p + bv) + (ri * p + rv),
{
    assert((ai + 256 * bn) * p == (bi + bo + ri) * p);
    assert((ai + 256 * bn) * p == ai * p + bn * (256 * p)) by (nonlinear_arith);
    assert((bi + bo + ri) * p == bi * p + bo * p + ri * p) by (nonlinear_arith);
}

/// The difference `a - b` of two 32-byte numbers, where `a` is not the smaller one.
fn be_sub(a: &[u8; 32], b: &[u8; 32]) -> (r: [u8; 32])
    requires
        be_value(a@) >= be_value(b@),
    ensures
        be_value(r@) == be_value(a@) - be_value(b@),
{
    let mut r: [u8; 32] = [0u8; 32];
    let mut borrow: u16 = 0;
    let mut i: usize = 32;
    proof {
        assert(a@.subrange(32, 32) =~= Seq::<u8>::empty());
        assert(b@.subrange(32, 32) =~= Seq::<u8>::empty());
        assert(r@.subrange(32, 32) =~= Seq::<u8>::empty());
    }
    while i > 0
        invariant
            i <= 32,
            borrow <= 1,
            be_value(a@.subrange(i as int, 32)) + borrow * pow256((32 - i) as nat) == be_value(
                b@.subrange(i as int, 32),
            ) + be_value(r@.subrange(i as int, 32)),
        decreases i,
    {
        let idx: usize = i - 1;
        let x: u16 = a[idx] as u16 + 256 - b[idx] as u16 - borrow;
        let digit: u8 = (x % 256) as u8;
        let next: u16 = if x < 256 {
            1
        } else {
            0
        };
        let ghost before = r@;
        r[idx] = digit;
        proof {
            let p = pow256((32 - i) as nat);
            let sa = a@.subrange(idx as int, 32);
            let sb = b@.subrange(idx as int, 32);
            let sr = r@.subrange(idx as int, 32);
            assert(sa.subrange(1, sa.len() as int) =~= a@.subrange(i as int, 32));
            assert(sb.subrange(1, sb.len() as int) =~= b@.subrange(i as int, 32));
            assert(sr.subrange(1, sr.len() as int) =~= before.subrange(i as int, 32));
            lemma_be_value_first(sa);
            lemma_be_value_first(sb);
            lemma_be_value_first(sr);
            lemma_sub_step(
                be_value(a@.subrange(i as int, 32)),
                be_value(b@.subrange(i as int, 32)),
                be_value(before.subrange(i as int, 32)),
                a@[idx as int] as nat,
                b@[idx as int] as nat,
                digit as nat,
                borrow as nat,
                next as nat,
                p,
            );
            assert(pow256((32 - idx) as nat) == 256 * p);
        }
        borrow = next;
        i = idx;
    }
    proof {
        assert(a@.subrange(0, 32) =~= a@);
        assert(b@.subrange(0, 32) =~= b@);
        assert(r@.subrange(0, 32) =~= r@);
        lemma_be_value_bound(r@);
        lemma_be_value_bound(a@);
        let p = pow256(32);
        assert(borrow == 0) by {
            if borrow == 1 {
                assert(1 * p == p);
            }
        }
        assert(0 * p == 0);
    }
    r
}

/// The group order as an array.
pub fn group_order_array() -> (r: [u8; 32])
    ensures
        r@ == group_order_bytes(),
{
    let r: [u8; 32] = [
        0xff, 0xff, 0xff, 0xff, 0xff, 0xff, 0xff, 0xff,
        0xff, 0xff, 0xff, 0xff, 0xff, 0xff, 0xff, 0xfe,
        0xba, 0xae, 0xdc, 0xe6, 0xaf, 0x48, 0xa0, 0x3b,
        0xbf, 0xd2, 0x5e, 0x8c, 0xd0, 0x36, 0x41, 0x41,
    ];
    assert(r@ =~= group_order_bytes());
    r
}

/// The 32-byte number `d` reduced modulo the group order.
pub fn reduce_mod_order(d: &[u8; 32]) -> (r: [u8; 32])
    ensures
        r@ == be_encode(be_value(d@) % group_order(), 32),
        be_value(r@) == be_value(d@) % group_order(),
{
    let n = group_order_array();
    proof {
        lemma_group_order_range();
        lemma_be_value_bound(d@);
    }
    let r = if be_less(d, &n) {
        proof {
            assert(be_value(d@) % group_order() == be_value(d@)) by (nonlinear_arith)
                requires
                    be_value(d@) < group_order(),
            ;
        }
        *d
    } else {
        let r = be_sub(d, &n);
        proof {
            let v = be_value(d@);
            let m = group_order();
            assert(v % m == v - m) by (nonlinear_arith)
                requires
                    m <= v < 2 * m,
                    m > 0,
            ;
        }
        r
    };
    proof {
        lemma_be_encode_of_value(r@);
    }
    r
}

/// The 32-byte big-endian form of a 64-bit number: 24 zero bytes, then its 8 bytes.
pub fn u64_to_be32(v: u64) -> (r: [u8; 32])
    ensures
        r@ == be_encode(v as nat, 32),
        be_value(r@) == v,
{
    let mut r: [u8; 32] = [0u8; 32];
    let mut x: u64 = v;
    let mut i: usize = 32;
    proof {
        assert(be_encode(v as nat, 32) =~= be_encode(x as nat, 32) + r@.subrange(32, 32));
    }
    while i > 0
        invariant
            i <= 32,
            be_encode(v as nat, 32) == be_encode(x as nat, i as nat) + r@.subrange(i as int, 32),
        decreases i,
    {
        let idx: usize = i - 1;
        let ghost before = r@;
        r[idx] = (x % 256) as u8;
        proof {
            assert(be_encode(x as nat, i as nat) == be_encode(x as nat / 256, idx as nat).push(
                (x as nat % 256) as u8,
            ));
            assert(be_encode(x as nat, i as nat) + before.subrange(i as int, 32) =~= be_encode(
                x as nat / 256,
                idx as nat,
            ) + r@.subrange(idx as int, 32)) by {
                lemma_be_encode_len(x as nat / 256, idx as nat);
                lemma_be_encode_len(x as nat, i as nat);
            }
        }
        x = x / 256;
        i = idx;
    }
    proof {
        assert(be_encode(x as nat, 0) + r@.subrange(0, 32) =~= r@);
        lemma_group_order_range();
        lemma_pow256_monotonic(8, 32);
        assert(pow256(8) == 0x1_0000_0000_0000_0000) by {
            reveal_with_fuel(pow256, 9);
        }
        lemma_be_value_of_encode(v as nat, 32);
    }
    r
}

} // verus!
