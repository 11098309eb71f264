use halo2curves::bn256::Fr;
use ff::FromUniformBytes;
use vstd::prelude::*;
use vstd::arithmetic::power2::pow2;

verus! {

/// The order of the BN254 scalar field.
pub open spec fn modulus() -> nat {
    0x30644e72e131a029b85045b68181585d2833e84879b9709143e1f593f0000001nat
}

/// The unsigned integer whose little-endian bytes are `s`.
pub open spec fn le_nat(s: Seq<u8>) -> nat
    decreases s.len(),
{
    if s.len() == 0 {
        0
    } else {
        s[0] as nat + 256 * le_nat(s.drop_first())
    }
}

/// The unsigned integer whose big-endian bytes are `s`.
pub open spec fn be_nat(s: Seq<u8>) -> nat
    decreases s.len(),
{
    if s.len() == 0 {
        0
    } else {
        256 * be_nat(s.drop_last()) + s.last() as nat
    }
}

pub open spec fn bit_val(b: bool) -> nat {
    if b {
        1
    } else {
        0
    }
}

/// The unsigned integer whose bits, most significant first, are `s`.
pub open spec fn bits_nat(s: Seq<bool>) -> nat
    decreases s.len(),
{
    if s.len() == 0 {
        0
    } else {
        2 * bits_nat(s.drop_last()) + bit_val(s.last())
    }
}

/// An element of the BN254 scalar field, held as its canonical little-endian bytes.
#[derive(Clone, Copy, Debug, PartialEq, Eq)]
pub struct Bn256F {
    pub bytes: [u8; 32],
}

impl Bn256F {
    /// The integer this element stands for.
    pub open spec fn value(&self) -> nat {
        le_nat(self.bytes@)
    }

    /// The bytes are the canonical form: the integer is below the modulus.
    pub open spec fn wf(&self) -> bool {
        self.value() < modulus()
    }

    /// The additive identity.
    pub fn zero() -> (r: Bn256F)
        ensures
            r.wf(),
            r.value() == 0,
    {
        let r = Bn256F { bytes: [0u8; 32] };
        proof {
            lemma_le_nat_zero(r.bytes@);
        }
        r
    }

    /// The multiplicative identity.
    pub fn one() -> (r: Bn256F)
        ensures
            r.wf(),
            r.value() == 1,
    {
        let r = Bn256F::from_u64(1);
        r
    }

    /// The element for a 64-bit integer.
    pub fn from_u64(v: u64) -> (r: Bn256F)
        ensures
            r.wf(),
            r.value() == v as nat,
    {
        let mut bytes = [0u8; 32];
        let mut x: u64 = v;
        let mut i: usize = 0;
        proof {
            vstd::arithmetic::power2::lemma2_to64();
            assert(bytes@.take(0) =~= Seq::<u8>::empty());
            assert(le_nat(bytes@.take(0)) == 0);
            assert(pow2(8 * 0nat) == 1);
        }
        while i < 8
            invariant
                i <= 8,
                forall|j: int| 0 <= j < 32 ==> bytes@[j] == 0u8 || j < i,
                v as nat == le_nat(bytes@.take(i as int)) + pow2(8 * i as nat) * x as nat,
            decreases 8 - i,
        {
            let ghost prev = bytes@;
            bytes[i] = (x % 256) as u8;
            proof {
                lemma_le_nat_take_push(bytes@, i as int);
                assert(bytes@.take(i as int) =~= prev.take(i as int));
                vstd::arithmetic::power2::lemma_pow2_adds(8 * i as nat, 8);
                vstd::arithmetic::power2::lemma2_to64();
                let p = pow2(8 * i as nat);
                assert(p * (x as nat) == p * ((x % 256) as nat) + p * 256 * ((x / 256) as nat))
                    by (nonlinear_arith);
            }
            x = x / 256;
            i = i + 1;
        }
        proof {
            vstd::arithmetic::power2::lemma2_to64();
            vstd::arithmetic::power2::lemma_pow2_adds(32, 32);
            lemma_le_nat_trailing_zeros(bytes@, 8);
            let l = le_nat(bytes@.take(8));
            let p = pow2(64);
            assert(x == 0) by (nonlinear_arith)
                requires
                    v as nat == l + p * x as nat,
                    v < p,
            ;
        }
        Bn256F { bytes }
    }

    /// Whether this is the zero element.
    pub fn is_zero(&self) -> (r: bool)
        ensures
            r == (self.value() == 0),
    {
        proof {
            lemma_le_nat_zero(self.bytes@);
        }
        let mut i: usize = 0;
        while i < 32
            invariant
                i <= 32,
                forall|j: int| 0 <= j < i ==> self.bytes@[j] == 0u8,
            decreases 32 - i,
        {
            if self.bytes[i] != 0 {
                proof {
                    assert(self.bytes@[i as int] != 0u8);
                    lemma_le_nat_zero(self.bytes@);
                }
                return false;
            }
            i = i + 1;
        }
        true
    }
}

impl Bn256F {
    /// Whether this is the element one.
    pub fn is_one(&self) -> (r: bool)
        ensures
            r == (self.value() == 1),
    {
        proof {
            lemma_le_nat_one(self.bytes@);
        }
        if self.bytes[0] != 1 {
            return false;
        }
        let mut i: usize = 1;
        while i < 32
            invariant
                1 <= i <= 32,
                self.bytes@[0] == 1u8,
                forall|j: int| 1 <= j < i ==> self.bytes@[j] == 0u8,
            decreases 32 - i,
        {
            if self.bytes[i] != 0 {
                proof {
                    assert(self.bytes@[i as int] != 0u8);
                    lemma_le_nat_one(self.bytes@);
                }
                return false;
            }
            i = i + 1;
        }
        true
    }
}

/// `le_nat` is one exactly when the first byte is one and the others zero.
pub proof fn lemma_le_nat_one(s: Seq<u8>)
    requires
        s.len() > 0,
    ensures
        (le_nat(s) == 1) <==> (s[0] == 1u8 && forall|j: int| 1 <= j < s.len() ==> s[j] == 0u8),
{
    let t = s.drop_first();
    lemma_le_nat_zero(t);
    assert forall|j: int| 1 <= j < s.len() implies s[j] == t[j - 1] by {}
    if forall|j: int| 1 <= j < s.len() ==> s[j] == 0u8 {
        assert forall|j: int| 0 <= j < t.len() implies t[j] == 0u8 by {
            assert(t[j] == s[j + 1]);
        }
    }
}

/// Two byte strings of one length with one little-endian integer are equal.
pub proof fn lemma_le_nat_injective(a: Seq<u8>, b: Seq<u8>)
    requires
        a.len() == b.len(),
        le_nat(a) == le_nat(b),
    ensures
        a == b,
    decreases a.len(),
{
    if a.len() > 0 {
        let x = le_nat(a.drop_first());
        let y = le_nat(b.drop_first());
        let u = a[0] as int;
        let v = b[0] as int;
        assert(x == y && u == v) by (nonlinear_arith)
            requires
                u + 256 * x == v + 256 * y,
                0 <= u < 256,
                0 <= v < 256,
                x >= 0,
                y >= 0,
        ;
        lemma_le_nat_injective(a.drop_first(), b.drop_first());
        assert(a =~= seq![a[0]] + a.drop_first());
        assert(b =~= seq![b[0]] + b.drop_first());
    } else {
        assert(a =~= b);
    }
}

/// An element is determined by the integer it stands for.
pub proof fn lemma_value_determines(a: Bn256F, b: Bn256F)
    requires
        a.value() == b.value(),
    ensures
        a == b,
{
    lemma_le_nat_injective(a.bytes@, b.bytes@);
    assert(a.bytes =~= b.bytes);
}

/// The element for the integer `v` reduced by the modulus.
pub open spec fn element_of(v: nat) -> Bn256F {
    choose|r: Bn256F| r.wf() && r.value() == v % modulus()
}

/// An element in canonical form is the element of its own integer.
pub proof fn lemma_element_of(r: Bn256F, v: nat)
    requires
        r.wf(),
        r.value() == v % modulus(),
    ensures
        r == element_of(v),
{
    let e = element_of(v);
    assert(e.wf() && e.value() == v % modulus());
    lemma_value_determines(r, e);
}

/// `le_nat` is zero exactly when every byte is.
pub proof fn lemma_le_nat_zero(s: Seq<u8>)
    ensures
        (le_nat(s) == 0) <==> (forall|j: int| 0 <= j < s.len() ==> s[j] == 0u8),
    decreases s.len(),
{
    if s.len() > 0 {
        lemma_le_nat_zero(s.drop_first());
        if le_nat(s) == 0 {
            assert forall|j: int| 0 <= j < s.len() implies s[j] == 0u8 by {
                if j > 0 {
                    assert(s.drop_first()[j - 1] == s[j]);
                }
            }
        }
        if forall|j: int| 0 <= j < s.len() ==> s[j] == 0u8 {
            assert forall|j: int| 0 <= j < s.drop_first().len() implies s.drop_first()[j] == 0u8 by {
                assert(s.drop_first()[j] == s[j + 1]);
            }
        }
    }
}

/// Appending one byte to a little-endian prefix adds it at the next position.
#[verifier::spinoff_prover]
pub proof fn lemma_le_nat_take_push(s: Seq<u8>, i: int)
    requires
        0 <= i < s.len(),
    ensures
        le_nat(s.take(i + 1)) == le_nat(s.take(i)) + pow2(8 * i as nat) * s[i] as nat,
    decreases i,
{
    vstd::arithmetic::power2::lemma2_to64();
    if i == 0 {
        assert(s.take(1).drop_first() =~= Seq::<u8>::empty());
        assert(s.take(0) =~= Seq::<u8>::empty());
        assert(le_nat(Seq::<u8>::empty()) == 0);
        assert(s.take(1)[0] == s[0]);
        assert(le_nat(s.take(1)) == s[0] as nat);
        assert(pow2(0) == 1);
        assert(8 * i as nat == 0);
    } else {
        let t = s.drop_first();
        lemma_le_nat_take_push(t, i - 1);
        assert(s.take(i + 1).drop_first() =~= t.take(i));
        assert(s.take(i).drop_first() =~= t.take(i - 1));
        assert(s.take(i + 1)[0] == s[0]);
        assert(s.take(i)[0] == s[0]);
        assert(t[i - 1] == s[i]);
        vstd::arithmetic::power2::lemma_pow2_adds(8, 8 * (i - 1) as nat);
        let p = pow2(8 * (i - 1) as nat);
        assert((8 + 8 * (i - 1) as nat) as nat == 8 * i as nat);
        assert(pow2(8 * i as nat) == 256 * p);
        let l = le_nat(t.take(i - 1));
        let x = s[i] as nat;
        assert(256 * (l + p * x) == 256 * l + (256 * p) * x) by (nonlinear_arith);
        assert(le_nat(s.take(i + 1)) == s[0] as nat + 256 * le_nat(t.take(i)));
        assert(le_nat(s.take(i)) == s[0] as nat + 256 * l);
        assert(le_nat(t.take(i)) == l + p * x);
        assert(le_nat(s.take(i + 1)) == s[0] as nat + 256 * l + (256 * p) * x);
    }
}

/// Bytes that are zero from position `n` on add nothing to `le_nat`.
pub proof fn lemma_le_nat_trailing_zeros(s: Seq<u8>, n: int)
    requires
        0 <= n <= s.len(),
        forall|j: int| n <= j < s.len() ==> s[j] == 0u8,
    ensures
        le_nat(s) == le_nat(s.take(n)),
    decreases s.len(),
{
    if n == 0 {
        lemma_le_nat_zero(s);
        assert(s.take(0) =~= Seq::<u8>::empty());
    } else {
        let t = s.drop_first();
        assert forall|j: int| n - 1 <= j < t.len() implies t[j] == 0u8 by {
            assert(t[j] == s[j + 1]);
        }
        lemma_le_nat_trailing_zeros(t, n - 1);
        assert(s.take(n).drop_first() =~= t.take(n - 1));
    }
}

/// A little-endian buffer whose first bytes are `b` reversed, then zeros,
/// reads as the big-endian integer of `b`.
pub proof fn lemma_le_of_reversed(w: Seq<u8>, b: Seq<u8>)
    requires
        b.len() <= w.len(),
        forall|i: int| 0 <= i < b.len() ==> w[i] == b[b.len() - 1 - i],
        forall|i: int| b.len() <= i < w.len() ==> w[i] == 0u8,
    ensures
        le_nat(w) == be_nat(b),
    decreases w.len(),
{
    if b.len() == 0 {
        lemma_le_nat_zero(w);
    } else {
        let w2 = w.drop_first();
        let b2 = b.drop_last();
        assert forall|i: int| 0 <= i < b2.len() implies w2[i] == b2[b2.len() - 1 - i] by {
            assert(w2[i] == w[i + 1]);
        }
        assert forall|i: int| b2.len() <= i < w2.len() implies w2[i] == 0u8 by {
            assert(w2[i] == w[i + 1]);
        }
        lemma_le_of_reversed(w2, b2);
    }
}

/// Relies on `FromUniformBytes::from_uniform_bytes` of halo2curves' BN254 `Fr`:
/// the 64 bytes are read as a little-endian integer and reduced by the modulus;
/// `Fr::to_bytes` then gives the canonical little-endian bytes.
#[verifier::external_body]
fn fr_from_uniform_bytes(wide: &[u8; 64]) -> (r: Bn256F)
    ensures
        r.wf(),
        r.value() == le_nat(wide@) % modulus(),
{
    Bn256F { bytes: Fr::from_uniform_bytes(wide).to_bytes() }
}

/// Reduces 64 little-endian bytes by the modulus.
pub fn f_from_wide(wide: &[u8; 64]) -> (r: Bn256F)
    ensures
        r.wf(),
        r.value() == le_nat(wide@) % modulus(),
{
    fr_from_uniform_bytes(wide)
}

/// Relies on `Mul` of halo2curves' BN254 `Fr`: the product reduced by the
/// modulus. `Fr::from_bytes` reads canonical bytes, which `wf` guarantees.
#[verifier::external_body]
fn fr_mul(a: &Bn256F, b: &Bn256F) -> (r: Bn256F)
    requires
        a.wf(),
        b.wf(),
    ensures
        r.wf(),
        r.value() == (a.value() * b.value()) % modulus(),
{
    let x = Fr::from_bytes(&a.bytes).unwrap();
    let y = Fr::from_bytes(&b.bytes).unwrap();
    Bn256F { bytes: (x * y).to_bytes() }
}

/// Relies on `ff::Field::pow` of halo2curves' BN254 `Fr`: `a` raised to the
/// exponent, reduced by the modulus.
#[verifier::external_body]
fn fr_pow(a: &Bn256F, exp: u64) -> (r: Bn256F)
    requires
        a.wf(),
    ensures
        r.wf(),
        r.value() == vstd::arithmetic::power::pow(a.value() as int, exp as nat) as nat % modulus(),
{
    let x = Fr::from_bytes(&a.bytes).unwrap();
    Bn256F { bytes: ff::Field::pow(&x, [exp]).to_bytes() }
}

/// Relies on `Add` of halo2curves' BN254 `Fr`: the sum reduced by the modulus.
#[verifier::external_body]
fn fr_add(a: &Bn256F, b: &Bn256F) -> (r: Bn256F)
    requires
        a.wf(),
        b.wf(),
    ensures
        r.wf(),
        r.value() == (a.value() + b.value()) % modulus(),
{
    let x = Fr::from_bytes(&a.bytes).unwrap();
    let y = Fr::from_bytes(&b.bytes).unwrap();
    Bn256F { bytes: (x + y).to_bytes() }
}

impl Bn256F {
    /// The product of two elements.
    pub fn mul(&self, other: &Bn256F) -> (r: Bn256F)
        requires
            self.wf(),
            other.wf(),
        ensures
            r.wf(),
            r.value() == (self.value() * other.value()) % modulus(),
    {
        fr_mul(self, other)
    }

    /// This element raised to `exp`.
    pub fn pow(&self, exp: u64) -> (r: Bn256F)
        requires
            self.wf(),
        ensures
            r.wf(),
            r.value() == vstd::arithmetic::power::pow(self.value() as int, exp as nat) as nat
                % modulus(),
    {
        fr_pow(self, exp)
    }

    /// The sum of two elements.
    pub fn add(&self, other: &Bn256F) -> (r: Bn256F)
        requires
            self.wf(),
            other.wf(),
        ensures
            r.wf(),
            r.value() == (self.value() + other.value()) % modulus(),
    {
        fr_add(self, other)
    }
}

} // verus!
