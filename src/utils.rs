use vstd::prelude::*;
use vstd::arithmetic::power2::pow2;
use crate::field::{
    Bn256F, be_nat, bit_val, bits_nat, f_from_wide, lemma_le_of_reversed, modulus,
};

verus! {

/// A bits-first prefix grows by doubling and adding the next bit.
pub proof fn lemma_bits_nat_take(s: Seq<bool>, j: int)
    requires
        0 <= j < s.len(),
    ensures
        bits_nat(s.take(j + 1)) == 2 * bits_nat(s.take(j)) + bit_val(s[j]),
{
    assert(s.take(j + 1).drop_last() =~= s.take(j));
}

/// Appending a byte to a big-endian buffer shifts it by one byte.
pub proof fn lemma_be_nat_push(s: Seq<u8>, x: u8)
    ensures
        be_nat(s.push(x)) == 256 * be_nat(s) + x as nat,
{
    assert(s.push(x).drop_last() =~= s);
}

/// `n` bits hold an integer below `2^n`.
pub proof fn lemma_bits_nat_bound(s: Seq<bool>)
    ensures
        bits_nat(s) < pow2(s.len()),
    decreases s.len(),
{
    vstd::arithmetic::power2::lemma2_to64();
    if s.len() > 0 {
        lemma_bits_nat_bound(s.drop_last());
        vstd::arithmetic::power2::lemma_pow2_unfold(s.len());
    }
}

/// Converts bits in most-significant-first order into big-endian bytes. The
/// bits are left-padded with zeros to a whole number of bytes.
pub fn boolvec_to_u8vec(bv: &[bool]) -> (r: Vec<u8>)
    requires
        bv@.len() + 7 <= usize::MAX,
    ensures
        r@.len() == (bv@.len() + 7) / 8,
        be_nat(r@) == bits_nat(bv@),
{
    let n = bv.len();
    let m = (n + 7) / 8;
    let pad = 8 * m - n;
    let mut r: Vec<u8> = Vec::new();
    let ghost mut acc: nat = 0;
    let mut k: usize = 0;
    proof {
        vstd::arithmetic::power2::lemma2_to64();
    }
    while k < m
        invariant
            n == bv@.len(),
            m == (n + 7) / 8,
            pad == 8 * m - n,
            pad < 8,
            k <= m,
            r@.len() == k,
            acc == be_nat(r@),
            acc == if 8 * k <= pad {
                0
            } else {
                bits_nat(bv@.take(8 * k - pad))
            },
        decreases m - k,
    {
        let mut byte: u8 = 0;
        let mut t: usize = 0;
        proof {
            vstd::arithmetic::power2::lemma2_to64();
        }
        while t < 8
            invariant
                n == bv@.len(),
                m == (n + 7) / 8,
                pad == 8 * m - n,
                pad < 8,
                k < m,
                t <= 8,
                r@.len() == k,
                byte < pow2(t as nat),
                acc == be_nat(r@) * pow2(t as nat) + byte,
                acc == if 8 * k + t <= pad {
                    0
                } else {
                    bits_nat(bv@.take(8 * k + t - pad))
                },
            decreases 8 - t,
        {
            let i = 8 * k + t;
            let bit = if i < pad {
                false
            } else {
                bv[i - pad]
            };
            proof {
                vstd::arithmetic::power2::lemma2_to64();
                vstd::arithmetic::power2::lemma_pow2_unfold((t + 1) as nat);
                if t + 1 < 8 {
                    vstd::arithmetic::power2::lemma_pow2_strictly_increases((t + 1) as nat, 8);
                }
                if i >= pad {
                    lemma_bits_nat_take(bv@, (i - pad) as int);
                    if i == pad {
                        assert(bv@.take(0) =~= Seq::<bool>::empty());
                    }
                }
                let b = be_nat(r@);
                let p = pow2(t as nat);
                assert(2 * (b * p) == b * (2 * p)) by (nonlinear_arith);
                acc = 2 * acc + bit_val(bit);
            }
            byte = 2 * byte + if bit {
                1u8
            } else {
                0u8
            };
            t = t + 1;
        }
        proof {
            vstd::arithmetic::power2::lemma2_to64();
            assert(t == 8);
            assert(pow2(t as nat) == 256);
            assert(acc == be_nat(r@) * 256 + byte);
            lemma_be_nat_push(r@, byte);
        }
        r.push(byte);
        assert(acc == be_nat(r@));
        k = k + 1;
    }
    proof {
        assert(8 * m - pad == n);
        assert(bv@.take(n as int) =~= bv@);
        if 8 * m <= pad {
            assert(n == 0);
            assert(bv@ =~= Seq::<bool>::empty());
        }
    }
    r
}

/// Converts big-endian bytes into a field element by reducing by the modulus.
pub fn bytes_be_to_f(bytes: Vec<u8>) -> (r: Bn256F)
    requires
        bytes@.len() <= 64,
    ensures
        r.wf(),
        r.value() == be_nat(bytes@) % modulus(),
{
    let n = bytes.len();
    let mut wide = [0u8; 64];
    let mut i: usize = 0;
    while i < n
        invariant
            n == bytes@.len(),
            n <= 64,
            i <= n,
            forall|j: int| 0 <= j < i ==> wide@[j] == bytes@[n - 1 - j],
            forall|j: int| i <= j < 64 ==> wide@[j] == 0u8,
        decreases n - i,
    {
        wide[i] = bytes[n - 1 - i];
        i = i + 1;
    }
    proof {
        lemma_le_of_reversed(wide@, bytes@);
    }
    f_from_wide(&wide)
}

/// Decomposes a field element into 256 bits, most significant first.
pub fn f_to_bits(f: &Bn256F) -> (r: [bool; 256])
    ensures
        bits_nat(r@) == f.value(),
{
    let mut r = [false; 256];
    let ghost be = Seq::new(32, |j: int| f.bytes@[31 - j]);
    let ghost mut acc: nat = 0;
    let mut k: usize = 0;
    proof {
        assert(r@.take(0) =~= Seq::<bool>::empty());
        assert(be.take(0) =~= Seq::<u8>::empty());
    }
    while k < 32
        invariant
            k <= 32,
            be == Seq::new(32, |j: int| f.bytes@[31 - j]),
            acc == bits_nat(r@.take(8 * k)),
            acc == be_nat(be.take(k as int)),
        decreases 32 - k,
    {
        let b: u8 = f.bytes[31 - k];
        let mut t: usize = 0;
        proof {
            vstd::arithmetic::power2::lemma2_to64();
            assert((b >> 8u8) == 0u8) by (bit_vector);
        }
        while t < 8
            invariant
                k < 32,
                t <= 8,
                b == f.bytes@[31 - k],
                acc == bits_nat(r@.take(8 * k + t)),
                acc == be_nat(be.take(k as int)) * pow2(t as nat) + (b >> ((8 - t) as u8)) as nat,
            decreases 8 - t,
        {
            let s: u8 = (7 - t) as u8;
            let bit = (b >> s) & 1 == 1;
            let ghost prev = r@;
            r[8 * k + t] = bit;
            proof {
                assert((b >> s) == 2 * (b >> (((s + 1) as u8))) + ((b >> s) & 1)) by (bit_vector)
                    requires
                        s < 8,
                ;
                assert(((b >> s) & 1) == 1u8 || ((b >> s) & 1) == 0u8) by (bit_vector);
                assert(((s + 1) as u8) == (8 - t) as u8);
                lemma_bits_nat_take(r@, (8 * k + t) as int);
                assert(r@.take((8 * k + t) as int) =~= prev.take((8 * k + t) as int));
                vstd::arithmetic::power2::lemma_pow2_unfold((t + 1) as nat);
                let v = be_nat(be.take(k as int));
                let p = pow2(t as nat);
                assert(2 * (v * p) == v * (2 * p)) by (nonlinear_arith);
                acc = 2 * acc + bit_val(bit);
            }
            t = t + 1;
        }
        proof {
            vstd::arithmetic::power2::lemma2_to64();
            assert((b >> 0u8) == b) by (bit_vector);
            assert(be.take(k + 1).drop_last() =~= be.take(k as int));
            assert(be.take(k + 1).last() == b);
            assert(pow2(t as nat) == 256);
            assert(acc == be_nat(be.take(k as int)) * 256 + b);
            assert(acc == be_nat(be.take(k + 1)));
        }
        k = k + 1;
    }
    proof {
        assert(r@.take(256) =~= r@);
        assert(be.take(32) =~= be);
        lemma_le_of_reversed(f.bytes@, be);
    }
    r
}

/// Converts bits, most significant first, into a field element by reducing by
/// the modulus.
pub fn bits_to_f(bits: &[bool]) -> (r: Bn256F)
    requires
        bits@.len() <= 512,
    ensures
        r.wf(),
        r.value() == bits_nat(bits@) % modulus(),
{
    bytes_be_to_f(boolvec_to_u8vec(bits))
}

/// The bits that 0/1 field elements stand for.
pub open spec fn bools_of(bits: Seq<Bn256F>) -> Seq<bool> {
    Seq::new(bits.len(), |i: int| bits[i].value() == 1)
}

/// The bits that field elements stand for when every non-zero element counts
/// as one.
pub open spec fn nonzero_of(bits: Seq<Bn256F>) -> Seq<bool> {
    Seq::new(bits.len(), |i: int| bits[i].value() != 0)
}

/// Every element is zero or one.
pub open spec fn is_boolean(bits: Seq<Bn256F>) -> bool {
    forall|i: int| 0 <= i < bits.len() ==> #[trigger] bits[i].value() == 0 || bits[i].value() == 1
}

/// What `compose_bits_checked` does with an element that is neither zero nor one.
#[derive(Clone, Copy, Debug, PartialEq, Eq, Structural)]
pub enum NonBooleanBit {
    /// Compose nothing.
    Reject,
    /// Take the element as the bit one, so that a caller can exercise what
    /// follows a failed bit check.
    SubstituteOne,
}

fn compose_bools(bools: &Vec<bool>, index: usize) -> (r: Bn256F)
    requires
        bools@.len() == 64,
        index < 4,
    ensures
        r.wf(),
        r.value() == (bits_nat(bools@) * pow2((64 * (3 - index)) as nat)) % modulus(),
{
    let one = Bn256F::one();
    let two = one.add(&one);
    let e: u64 = ((3 - index) * 64) as u64;
    let shift = two.pow(e);
    let v = bits_to_f(bools);
    let r = v.mul(&shift);
    proof {
        vstd::arithmetic::power2::lemma2_to64();
        lemma_bits_nat_bound(bools@);
        let x = bits_nat(bools@);
        let q = pow2(e as nat);
        vstd::arithmetic::power2::lemma_pow2(e as nat);
        vstd::arithmetic::div_mod::lemma_mul_mod_noop_right(x as int, q as int, modulus() as int);
    }
    r
}

/// Composes the 64 bits of the limb at `index` into a field element, shifted
/// left by `64 * (3 - index)` bits. The bits are most significant first; the
/// limb at index 0 is the highest. Every element must be zero or one.
pub fn compose_bits(bits: &[Bn256F; 64], index: usize) -> (r: Bn256F)
    requires
        index < 4,
        is_boolean(bits@),
    ensures
        r.wf(),
        r.value() == (bits_nat(bools_of(bits@)) * pow2((64 * (3 - index)) as nat)) % modulus(),
{
    let mut bools: Vec<bool> = Vec::new();
    let mut i: usize = 0;
    while i < 64
        invariant
            i <= 64,
            is_boolean(bits@),
            bools@ =~= bools_of(bits@).take(i as int),
        decreases 64 - i,
    {
        assert(bits@[i as int].value() == 0 || bits@[i as int].value() == 1);
        let bit = !bits[i].is_zero();
        bools.push(bit);
        i = i + 1;
    }
    proof {
        assert(bools@ =~= bools_of(bits@));
    }
    compose_bools(&bools, index)
}

/// Composes the limb at `index` as `compose_bits` does, checking each element.
/// An element that is neither zero nor one gives `None` under
/// `NonBooleanBit::Reject` and counts as the bit one under
/// `NonBooleanBit::SubstituteOne`.
pub fn compose_bits_checked(
    bits: &[Bn256F; 64],
    index: usize,
    on_non_boolean: NonBooleanBit,
) -> (r: Option<Bn256F>)
    requires
        index < 4,
    ensures
        r is None <==> (on_non_boolean == NonBooleanBit::Reject && !is_boolean(bits@)),
        r matches Some(v) ==> v.wf() && v.value() == (bits_nat(nonzero_of(bits@)) * pow2(
            (64 * (3 - index)) as nat,
        )) % modulus(),
{
    let mut bools: Vec<bool> = Vec::new();
    let mut i: usize = 0;
    while i < 64
        invariant
            i <= 64,
            on_non_boolean == NonBooleanBit::Reject ==> forall|j: int|
                0 <= j < i ==> #[trigger] bits@[j].value() == 0 || bits@[j].value() == 1,
            bools@ =~= nonzero_of(bits@).take(i as int),
        decreases 64 - i,
    {
        let bit = if bits[i].is_zero() {
            false
        } else if bits[i].is_one() {
            true
        } else {
            match on_non_boolean {
                NonBooleanBit::Reject => {
                    assert(!is_boolean(bits@)) by {
                        assert(!(bits@[i as int].value() == 0 || bits@[i as int].value() == 1));
                    }
                    return None;
                },
                NonBooleanBit::SubstituteOne => true,
            }
        };
        bools.push(bit);
        i = i + 1;
    }
    proof {
        assert(bools@ =~= nonzero_of(bits@));
    }
    Some(compose_bools(&bools, index))
}

/// Splitting a bit string splits its integer: the head is shifted past the tail.
pub proof fn lemma_bits_nat_append(a: Seq<bool>, b: Seq<bool>)
    ensures
        bits_nat(a + b) == bits_nat(a) * pow2(b.len()) + bits_nat(b),
    decreases b.len(),
{
    vstd::arithmetic::power2::lemma2_to64();
    if b.len() == 0 {
        assert(a + b =~= a);
    } else {
        let b2 = b.drop_last();
        assert((a + b).drop_last() =~= a + b2);
        lemma_bits_nat_append(a, b2);
        vstd::arithmetic::power2::lemma_pow2_unfold(b.len());
        let x = bits_nat(a);
        let p = pow2(b2.len());
        assert(2 * (x * p) == x * (2 * p)) by (nonlinear_arith);
    }
}

/// Zero bytes in front leave a big-endian integer as it is.
pub proof fn lemma_be_nat_leading_zeros(z: Seq<u8>, b: Seq<u8>)
    requires
        forall|i: int| 0 <= i < z.len() ==> z[i] == 0u8,
    ensures
        be_nat(z + b) == be_nat(b),
    decreases b.len(),
{
    if b.len() == 0 {
        assert(z + b =~= z);
        lemma_be_nat_zeros(z);
    } else {
        assert((z + b).drop_last() =~= z + b.drop_last());
        lemma_be_nat_leading_zeros(z, b.drop_last());
    }
}

proof fn lemma_be_nat_zeros(z: Seq<u8>)
    requires
        forall|i: int| 0 <= i < z.len() ==> z[i] == 0u8,
    ensures
        be_nat(z) == 0,
    decreases z.len(),
{
    if z.len() > 0 {
        lemma_be_nat_zeros(z.drop_last());
    }
}

/// Splitting a byte string splits its big-endian integer.
pub proof fn lemma_be_nat_append(a: Seq<u8>, b: Seq<u8>)
    ensures
        be_nat(a + b) == be_nat(a) * pow2(8 * b.len()) + be_nat(b),
    decreases b.len(),
{
    vstd::arithmetic::power2::lemma2_to64();
    if b.len() == 0 {
        assert(a + b =~= a);
        assert(pow2(0) == 1);
        assert(be_nat(b) == 0);
        let x = be_nat(a);
        let q = pow2(8 * b.len());
        assert(x == x * q + 0) by (nonlinear_arith)
            requires
                q == 1,
        ;
    } else {
        let b2 = b.drop_last();
        assert((a + b).drop_last() =~= a + b2);
        assert((a + b).last() == b.last());
        lemma_be_nat_append(a, b2);
        vstd::arithmetic::power2::lemma_pow2_adds(8 * b2.len(), 8);
        assert(8 * b2.len() + 8 == 8 * b.len());
        let x = be_nat(a);
        let p = pow2(8 * b2.len());
        assert(256 * (x * p) == x * (p * 256)) by (nonlinear_arith);
        assert(pow2(8 * b.len()) == p * 256);
        assert(be_nat(b) == 256 * be_nat(b2) + b.last() as nat);
        assert(be_nat(a + b) == 256 * be_nat(a + b2) + b.last() as nat);
        let y = be_nat(b2);
        let z = b.last() as nat;
        let q = pow2(8 * b.len());
        assert(256 * (x * p + y) + z == x * q + (256 * y + z)) by (nonlinear_arith)
            requires
                q == p * 256,
        ;
        assert(be_nat(a + b) == x * q + be_nat(b));
    }
}

/// A big-endian integer is zero only where every byte is.
pub proof fn lemma_be_nat_zero_bytes(z: Seq<u8>)
    requires
        be_nat(z) == 0,
    ensures
        forall|i: int| 0 <= i < z.len() ==> z[i] == 0u8,
    decreases z.len(),
{
    if z.len() > 0 {
        lemma_be_nat_zero_bytes(z.drop_last());
        assert forall|i: int| 0 <= i < z.len() implies z[i] == 0u8 by {
            if i < z.len() - 1 {
                assert(z.drop_last()[i] == z[i]);
            }
        }
    }
}

/// Two byte strings of one length with one big-endian integer are equal.
pub proof fn lemma_be_nat_injective(a: Seq<u8>, b: Seq<u8>)
    requires
        a.len() == b.len(),
        be_nat(a) == be_nat(b),
    ensures
        a == b,
    decreases a.len(),
{
    if a.len() > 0 {
        let x = be_nat(a.drop_last());
        let y = be_nat(b.drop_last());
        let u = a.last() as int;
        let v = b.last() as int;
        assert(x == y && u == v) by (nonlinear_arith)
            requires
                256 * x + u == 256 * y + v,
                0 <= u < 256,
                0 <= v < 256,
                x >= 0,
                y >= 0,
        ;
        lemma_be_nat_injective(a.drop_last(), b.drop_last());
        assert(a =~= a.drop_last().push(a.last()));
        assert(b =~= b.drop_last().push(b.last()));
    }
}

/// Reading at most 64 big-endian bytes `b` of an integer below the modulus
/// into the field (`f`), splitting the element into its 256 bits (`bits`) and
/// packing those bits into bytes (`out`) gives 32 bytes: `b` itself, with
/// zeros in front where `b` is shorter, and the same integer where it is longer.
pub proof fn lemma_bytes_bits_round_trip(b: Seq<u8>, f: Bn256F, bits: Seq<bool>, out: Seq<u8>)
    requires
        b.len() <= 64,
        be_nat(b) < modulus(),
        f.value() == be_nat(b) % modulus(),
        bits.len() == 256,
        bits_nat(bits) == f.value(),
        out.len() == (bits.len() + 7) / 8,
        be_nat(out) == bits_nat(bits),
    ensures
        out.len() == 32,
        be_nat(out) == be_nat(b),
        b.len() <= 32 ==> out == Seq::new((32 - b.len()) as nat, |i: int| 0u8) + b,
        b.len() > 32 ==> b == Seq::new((b.len() - 32) as nat, |i: int| 0u8) + out,
{
    if b.len() > 32 {
        let k = b.len() - 32;
        let h = b.take(k as int);
        let t = b.skip(k as int);
        assert(b =~= h + t);
        lemma_be_nat_append(h, t);
        vstd::arithmetic::power2::lemma2_to64();
        vstd::arithmetic::power2::lemma_pow2_adds(64, 64);
        vstd::arithmetic::power2::lemma_pow2_adds(128, 128);
        assert(8 * t.len() == 256);
        let q = pow2(256);
        let h128 = pow2(128);
        assert(h128 == 0x1_0000_0000_0000_0000_0000_0000_0000_0000nat);
        assert(q == h128 * h128);
        assert(q == 0x1_0000_0000_0000_0000_0000_0000_0000_0000_0000_0000_0000_0000_0000_0000_0000_0000nat)
            by (nonlinear_arith)
            requires
                q == h128 * h128,
                h128 == 0x1_0000_0000_0000_0000_0000_0000_0000_0000nat,
        ;
        assert(modulus() < q);
        let x = be_nat(h);
        let y = be_nat(t);
        assert(x == 0) by (nonlinear_arith)
            requires
                x * q + y < q,
                y >= 0,
                x >= 0,
        ;
        lemma_be_nat_zero_bytes(h);
        assert(be_nat(b) == y) by (nonlinear_arith)
            requires
                be_nat(b) == x * q + y,
                x == 0,
        ;
        lemma_be_nat_injective(t, out);
        assert(h =~= Seq::new((b.len() - 32) as nat, |i: int| 0u8));
    }
    if b.len() <= 32 {
        let z = Seq::new((32 - b.len()) as nat, |i: int| 0u8);
        lemma_be_nat_leading_zeros(z, b);
        lemma_be_nat_injective(out, z + b);
    }
}

/// The limb of a 256-bit string at `index`, shifted to its place and reduced,
/// as `compose_bits` gives it.
pub open spec fn limb_term(s: Seq<bool>, index: int) -> nat {
    (bits_nat(s.subrange(64 * index, 64 * index + 64)) * pow2((64 * (3 - index)) as nat))
        % modulus()
}

proof fn lemma_limbs_sum(s: Seq<bool>)
    requires
        s.len() == 256,
    ensures
        bits_nat(s) == bits_nat(s.subrange(0, 64)) * pow2(192) + bits_nat(s.subrange(64, 128))
            * pow2(128) + bits_nat(s.subrange(128, 192)) * pow2(64) + bits_nat(
            s.subrange(192, 256),
        ),
{
    let l0 = s.subrange(0, 64);
    let l1 = s.subrange(64, 128);
    let l2 = s.subrange(128, 192);
    let l3 = s.subrange(192, 256);
    assert(s =~= ((l0 + l1) + l2) + l3);
    lemma_bits_nat_append(l0, l1);
    lemma_bits_nat_append(l0 + l1, l2);
    lemma_bits_nat_append((l0 + l1) + l2, l3);
    vstd::arithmetic::power2::lemma_pow2_adds(64, 64);
    vstd::arithmetic::power2::lemma_pow2_adds(128, 64);
    let x0 = bits_nat(l0);
    let x1 = bits_nat(l1);
    let x2 = bits_nat(l2);
    let x3 = bits_nat(l3);
    let p64 = pow2(64);
    let p128 = pow2(128);
    let p192 = pow2(192);
    assert(((x0 * p64 + x1) * p64 + x2) * p64 + x3 == x0 * p192 + x1 * p128 + x2 * p64 + x3)
        by (nonlinear_arith)
        requires
            p128 == p64 * p64,
            p192 == p128 * p64,
    ;
}

proof fn lemma_mod_sum4(t0: int, t1: int, t2: int, t3: int, m: int)
    requires
        m > 0,
        t0 >= 0,
        t1 >= 0,
        t2 >= 0,
        t3 >= 0,
        t0 + t1 + t2 + t3 < m,
    ensures
        (t0 % m + t1 % m + t2 % m + t3 % m) % m == t0 + t1 + t2 + t3,
{
    vstd::arithmetic::div_mod::lemma_add_mod_noop(t0, t1, m);
    vstd::arithmetic::div_mod::lemma_add_mod_noop(t0 + t1, t2, m);
    vstd::arithmetic::div_mod::lemma_add_mod_noop(t0 + t1 + t2, t3, m);
    vstd::arithmetic::div_mod::lemma_add_mod_noop(t0 % m + t1 % m, t2 % m, m);
    vstd::arithmetic::div_mod::lemma_add_mod_noop(t0 % m + t1 % m + t2 % m, t3 % m, m);
    vstd::arithmetic::div_mod::lemma_mod_twice(t0 + t1, m);
    vstd::arithmetic::div_mod::lemma_mod_twice(t0 + t1 + t2, m);
    vstd::arithmetic::div_mod::lemma_mod_twice(t2, m);
    vstd::arithmetic::div_mod::lemma_mod_twice(t3, m);
    vstd::arithmetic::div_mod::lemma_small_mod((t0 + t1 + t2 + t3) as nat, m as nat);
}

/// The four limbs of 256 bits, most significant first, each shifted to its
/// place and summed in the field, give back the integer of the bits.
pub proof fn lemma_limbs_recompose(s: Seq<bool>)
    requires
        s.len() == 256,
        bits_nat(s) < modulus(),
    ensures
        (limb_term(s, 0) + limb_term(s, 1) + limb_term(s, 2) + limb_term(s, 3)) % modulus()
            == bits_nat(s),
{
    lemma_limbs_sum(s);
    vstd::arithmetic::power::lemma_pow0(2);
    vstd::arithmetic::power2::lemma_pow2(0);
    let t0 = bits_nat(s.subrange(0, 64)) * pow2(192);
    let t1 = bits_nat(s.subrange(64, 128)) * pow2(128);
    let t2 = bits_nat(s.subrange(128, 192)) * pow2(64);
    let t3 = bits_nat(s.subrange(192, 256)) * pow2(0);
    assert(t3 == bits_nat(s.subrange(192, 256)));
    lemma_mod_sum4(t0 as int, t1 as int, t2 as int, t3 as int, modulus() as int);
}

} // verus!
