//! Outputs: the fixed generators, amount commitments and fresh outputs.
use vstd::prelude::*;
use vstd::utf8::encode_utf8;
use crate::constants::{G1_LABEL, G2_LABEL, GPAY_LABEL};
use crate::group::{
    Point, Scalar, basepoint_encoding, group_order, ristretto_add, ristretto_from_uniform,
    ristretto_group_laws, ristretto_mul, ristretto_sub, sha512, sha512_of,
};
use crate::helpers::valid_point;
use crate::structs::{Output, OutputPublic, OutputSecret};

verus! {

/// The generator derived from a label: the one-way map of SHA-512 of the label's bytes
/// (`RistrettoPoint::hash_from_bytes::<Sha512>`).
pub open spec fn generator(label: Seq<char>) -> Seq<u8> {
    ristretto_from_uniform(sha512(encode_utf8(label)))
}

/// G1, the value generator of amount commitments.
pub open spec fn g1() -> Seq<u8> {
    generator(G1_LABEL@)
}

/// G2, the blinding generator of amount commitments.
pub open spec fn g2() -> Seq<u8> {
    generator(G2_LABEL@)
}

/// GPAY, the generator of payment keys.
pub open spec fn gpay() -> Seq<u8> {
    generator(GPAY_LABEL@)
}

/// GVRF, the generator of VRF keys: the Ristretto base point.
pub open spec fn gvrf() -> Seq<u8> {
    basepoint_encoding()
}

/// The Pedersen commitment v·G1 + r·G2.
pub open spec fn commitment_of(v: nat, r: nat) -> Seq<u8> {
    ristretto_add(ristretto_mul(v, g1()), ristretto_mul(r, g2()))
}

/// The generators come from their labels: G1, G2 and GPAY are the one-way map of SHA-512
/// of the bytes of "StakeNote/G1", "StakeNote/G2" and "StakeNote/GPAY", and GVRF is the
/// Ristretto base point.
pub proof fn lemma_generators_from_labels()
    ensures
        g1() == ristretto_from_uniform(sha512(encode_utf8("StakeNote/G1"@))),
        g2() == ristretto_from_uniform(sha512(encode_utf8("StakeNote/G2"@))),
        gpay() == ristretto_from_uniform(sha512(encode_utf8("StakeNote/GPAY"@))),
        gvrf() == basepoint_encoding(),
{
}

/// An output whose public part matches its secret: vk = sk·GPAY and C = v·G1 + r·G2.
pub open spec fn output_consistent(o: Output) -> bool {
    &&& o.public.vk_pay@ == ristretto_mul(o.secret.sk_pay.value(), gpay())
    &&& o.public.commitment@ == commitment_of(o.secret.amount as nat, o.secret.r.value())
}

/// In the group, taking G1 off a commitment to v > 0 leaves the commitment to v - 1
/// with the same blinding: (v·G1 + r·G2) - G1 = (v - 1)·G1 + r·G2.
pub proof fn lemma_commitment_minus_g1(v: u64, r: nat)
    requires
        ristretto_group_laws(),
        v > 0,
    ensures
        ristretto_sub(commitment_of(v as nat, r), g1()) == commitment_of((v - 1) as nat, r),
{
    let gg1 = g1();
    let gg2 = g2();
    let w: nat = (v - 1) as nat;
    assert(valid_point(gg1));
    assert(valid_point(gg2));
    let a = ristretto_mul(w, gg1);
    let b = ristretto_mul(r, gg2);
    let x = ristretto_add(a, b);
    let c = commitment_of(v as nat, r);
    assert(valid_point(a) && valid_point(b) && valid_point(x));
    // a + G1 = v·G1
    let a1 = ristretto_add(a, gg1);
    assert(a1 == ristretto_mul(v as nat, gg1)) by {
        assert(ristretto_mul(1, gg1) == gg1);
        assert(ristretto_add(a, ristretto_mul(1, gg1)) == ristretto_mul((w + 1) % group_order(), gg1));
        vstd::arithmetic::div_mod::lemma_small_mod(v as nat, group_order());
        assert(w + 1 == v as nat);
    }
    // (a + b) + G1 = (a + G1) + b = c
    assert(ristretto_add(x, gg1) == c) by {
        assert(ristretto_add(ristretto_add(a, b), gg1) == ristretto_add(a, ristretto_add(b, gg1)));
        assert(ristretto_add(b, gg1) == ristretto_add(gg1, b));
        assert(ristretto_add(ristretto_add(a, gg1), b) == ristretto_add(a, ristretto_add(gg1, b)));
    }
    // cancel G1
    let y = ristretto_sub(c, gg1);
    assert(y == x) by {
        assert(valid_point(c));
        assert(ristretto_add(y, gg1) == c);
        assert(valid_point(y));
    }
}

/// Compute output's amount as percentage of total stake: `pct_bp` basis points of
/// `v_total`, rounded to nearest (halves up).
pub fn amount_from_basis_points(v_total: u64, pct_bp: u32) -> (r: u64)
    requires
        pct_bp <= 10_000,
    ensures
        r == (v_total as nat * pct_bp as nat + 5_000) / 10_000,
        r <= v_total,
{
    let a: u128 = v_total as u128;
    let b: u128 = pct_bp as u128;
    assert(a * b <= (v_total as nat) * 10_000) by (nonlinear_arith)
        requires
            b <= 10_000,
            a == v_total,
    ;
    let num: u128 = a * b + 5_000;
    assert(num / 10_000 <= v_total) by (nonlinear_arith)
        requires
            num <= (v_total as nat) * 10_000 + 5_000,
    ;
    (num / 10_000) as u64
}

/// The share of `part` in `whole`, in basis points rounded down (truncated to 64 bits,
/// as a cast does, when `part` exceeds `whole` by a factor near 2^64 / 10_000).
pub fn basis_points_of(part: u64, whole: u64) -> (r: u64)
    requires
        whole > 0,
    ensures
        r == ((part as nat * 10_000 / whole as nat) as u64),
        part <= whole ==> r <= 10_000,
{
    let num: u128 = (part as u128) * 10_000u128;
    let q: u128 = num / (whole as u128);
    proof {
        if part <= whole {
            assert(q <= 10_000) by (nonlinear_arith)
                requires
                    num as int == part as int * 10_000,
                    q as int == num as int / whole as int,
                    part <= whole,
                    whole > 0,
            ;
        }
    }
    q as u64
}

/// Deterministic generator from a label.
fn gen_from_label(label: &str) -> (r: Point)
    ensures
        r@ == generator(label@),
{
    let d = sha512_of(label.as_bytes());
    Point::from_uniform_bytes(&d)
}

/// The generators G1, G2, GPAY and GVRF, derived deterministically.
pub fn setup_generators() -> (r: (Point, Point, Point, Point))
    ensures
        r.0@ == g1(),
        r.1@ == g2(),
        r.2@ == gpay(),
        r.3@ == gvrf(),
{
    let g1 = gen_from_label(G1_LABEL);
    let g2 = gen_from_label(G2_LABEL);
    let g_pay = gen_from_label(GPAY_LABEL);
    let g_vrf = Point::basepoint();
    (g1, g2, g_pay, g_vrf)
}

/// Commits to `amount` with a fresh random blinding r: returns (amount·G1 + r·G2, r).
pub fn amount_commitment(amount: u64) -> (r: (Point, Scalar))
    ensures
        r.0@ == commitment_of(amount as nat, r.1.value()),
{
    let (g1, g2, _, _) = setup_generators();
    let ro = Scalar::random();
    let vo_scalar = Scalar::from_u64(amount);
    let co = g1.mul(&vo_scalar).add(&g2.mul(&ro));
    (co, ro)
}

/// A fresh output of the given amount: random payment key sk, vk = sk·GPAY, and a
/// commitment to the amount with a random blinding.
pub fn create_output(amount: u64) -> (o: Output)
    ensures
        o.secret.amount == amount,
        output_consistent(o),
{
    let (_, _, g_pay, _) = setup_generators();
    let sko = Scalar::random();
    let vko = g_pay.mul(&sko);
    let (co, ro) = amount_commitment(amount);
    Output {
        secret: OutputSecret { sk_pay: sko, amount, r: ro },
        public: OutputPublic { vk_pay: vko, commitment: co },
    }
}

} // verus!
