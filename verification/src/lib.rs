pub mod aggloop;
pub mod aggtransition;
pub mod bucket;
pub mod circuits;
pub mod code;
pub mod field;
pub mod machine;
pub mod merkleloop;
pub mod opcodes;
pub mod permutation;
pub mod select;
pub mod snark;
pub mod vm;

use vstd::prelude::*;

verus! {

/// Decomposes `a` into its `n` low bits, least significant first.
pub open spec fn bits_of(a: u64, n: nat) -> Seq<bool>
    decreases n,
{
    if n == 0 {
        Seq::empty()
    } else {
        seq![a % 2 == 1] + bits_of(a / 2, (n - 1) as nat)
    }
}

/// Little-endian bit decomposition of a machine word, as the
/// witness decomposition gadgets expect it.
pub fn decode(a: u64, n: usize) -> (res: Vec<bool>)
    ensures
        res@ == bits_of(a, n as nat),
{
    let mut res: Vec<bool> = Vec::new();
    let mut a = a;
    let ghost a0 = a;
    for i in 0..n
        invariant
            res@.len() == i,
            res@ + bits_of(a, (n - i) as nat) == bits_of(a0, n as nat),
    {
        let x = a % 2;
        res.push(x != 0);
        a = a / 2;
    }
    res
}


/// Little-endian bit decomposition of a double-wide word, as the wide
/// results of the arithmetic unit are decomposed.
pub fn decode2(a: u128, n: usize) -> (res: Vec<bool>)
    ensures
        res@.len() == n,
        forall|i: int| 0 <= i < n ==> res@[i] == (bits2_of(a, n as nat)[i]),
{
    let mut res: Vec<bool> = Vec::new();
    let mut a = a;
    let ghost a0 = a;
    for i in 0..n
        invariant
            res@.len() == i,
            res@ + bits2_of(a, (n - i) as nat) == bits2_of(a0, n as nat),
    {
        let x = a % 2;
        res.push(x != 0);
        a = a / 2;
    }
    proof {
        lemma_bits2_len(a0, n as nat);
    }
    res
}

/// Decomposes a double-wide word into its `n` low bits, least
/// significant first.
pub open spec fn bits2_of(a: u128, n: nat) -> Seq<bool>
    decreases n,
{
    if n == 0 {
        Seq::empty()
    } else {
        seq![a % 2 == 1] + bits2_of(a / 2, (n - 1) as nat)
    }
}

/// A bit decomposition has one entry per requested bit.
pub proof fn lemma_bits2_len(a: u128, n: nat)
    ensures
        bits2_of(a, n).len() == n,
    decreases n,
{
    if n > 0 {
        lemma_bits2_len(a / 2, (n - 1) as nat)
    }
}

/// Splits an instruction word into its operation selector and its two
/// register selectors: the low four bits pick the operation, the next
/// two pairs of bits pick the registers.
pub fn decode_op(a: u64) -> (r: (u64, usize, usize))
    ensures
        r.0 == a % 16,
        r.1 == (a / 16) % 4,
        r.2 == (a / 64) % 4,
{
    (a % 16, ((a / 16) % 4) as usize, ((a / (16 * 4)) % 4) as usize)
}

/// The double-wide result of one arithmetic operation: an addition, a
/// multiplication, or a borrow-free subtraction offset by the word
/// radix.
pub fn compute(op: u64, a: u64, b: u64) -> (r: u128)
    ensures
        op == 0 ==> r == a + b,
        op == 1 ==> r == a * b,
        op != 0 && op != 1 ==> r == 0x1_0000_0000_0000_0000u128 + a - b,
{
    if op == 0 {
        (a as u128) + (b as u128)
    } else if op == 1 {
        proof {
            assert((a as int) * (b as int) <= (u64::MAX as int) * (u64::MAX as int))
                by (nonlinear_arith)
                requires
                    a <= u64::MAX && b <= u64::MAX,
            ;
        }
        (a as u128) * (b as u128)
    } else {
        0x1_0000_0000_0000_0000u128 + (a as u128) - (b as u128)
    }
}

/// A list read back to front.
pub fn reverse<T: Copy>(a: &Vec<T>) -> (r: Vec<T>)
    ensures
        r@ == a@.reverse(),
{
    let mut r: Vec<T> = Vec::new();
    let n = a.len();
    for i in 0..n
        invariant
            n == a@.len(),
            r@.len() == i,
            forall|j: int| 0 <= j < i ==> r@[j] == a@[n - 1 - j],
    {
        r.push(a[n - 1 - i]);
    }
    assert(r@ =~= a@.reverse());
    r
}

} // verus!
