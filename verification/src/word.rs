use vstd::prelude::*;
use vstd::arithmetic::div_mod::{
    lemma_fundamental_div_mod, lemma_fundamental_div_mod_converse, lemma_mod_bound,
};

verus! {

/// Number of values a 128-bit limb can take: 2^128.
pub open spec fn limb_modulus() -> nat {
    0x100000000000000000000000000000000nat
}

/// Number of values a machine word can take: 2^256.
/// All stack arithmetic is performed modulo this quantity.
pub open spec fn word_modulus() -> nat {
    0x10000000000000000000000000000000000000000000000000000000000000000nat
}

/// A 256-bit machine word, stored as two 128-bit limbs.
///
/// Every stack slot and every memory cell holds one of these; its
/// mathematical value is given by `word_nat`.
#[derive(Clone, Copy, Debug, PartialEq, Eq, Structural)]
pub struct Word {
    pub hi: u128,
    pub lo: u128,
}

/// The unsigned integer value of a word.
pub open spec fn word_nat(w: Word) -> nat {
    (w.hi * limb_modulus() + w.lo) as nat
}

/// The word holding the value `n`, for `n` below the word modulus: the
/// high limb is the quotient and the low limb the remainder of `n` by the
/// limb modulus.
pub open spec fn word_of_nat(n: nat) -> Word {
    Word { hi: (n / limb_modulus()) as u128, lo: (n % limb_modulus()) as u128 }
}

impl Word {
    /// The zero word.
    pub fn zero() -> (r: Word)
        ensures
            word_nat(r) == 0,
            r == word_of_nat(0),
    {
        Word { hi: 0, lo: 0 }
    }

    /// The word holding a small (128-bit) value exactly.
    pub fn from_u128(v: u128) -> (r: Word)
        ensures
            word_nat(r) == v,
    {
        Word { hi: 0, lo: v }
    }
}

/// `word_of_nat` inverts `word_nat`: a word is determined by its value.
pub proof fn lemma_word_of_nat_of_word(w: Word)
    ensures
        word_of_nat(word_nat(w)) == w,
{
    lemma_fundamental_div_mod_converse(
        word_nat(w) as int,
        limb_modulus() as int,
        w.hi as int,
        w.lo as int,
    );
}

/// `word_nat` inverts `word_of_nat` on values below the word modulus.
pub proof fn lemma_word_nat_of_nat(n: nat)
    requires
        n < word_modulus(),
    ensures
        word_nat(word_of_nat(n)) == n,
{
    lemma_fundamental_div_mod(n as int, limb_modulus() as int);
    lemma_mod_bound(n as int, limb_modulus() as int);
    assert(n / limb_modulus() < limb_modulus()) by (nonlinear_arith)
        requires
            n < word_modulus(),
            word_modulus() == limb_modulus() * limb_modulus(),
    ;
}

/// Relies on ethnum::U256::wrapping_add: addition modulo 2^256, documented as
/// "wrapping around at the boundary of the type"; `from_words`/`into_words`
/// convert between the two 128-bit limbs and the outside type.
#[verifier::external_body]
pub(crate) fn word_add(a: Word, b: Word) -> (r: Word)
    ensures
        word_nat(r) == (word_nat(a) + word_nat(b)) % word_modulus(),
{
    let x = ethnum::U256::from_words(a.hi, a.lo);
    let y = ethnum::U256::from_words(b.hi, b.lo);
    let (hi, lo) = x.wrapping_add(y).into_words();
    Word { hi, lo }
}

/// Relies on ethnum::U256::wrapping_mul: multiplication modulo 2^256,
/// documented as "wrapping around at the boundary of the type";
/// `from_words`/`into_words` convert between the limbs and the outside type.
#[verifier::external_body]
pub(crate) fn word_mul(a: Word, b: Word) -> (r: Word)
    ensures
        word_nat(r) == (word_nat(a) * word_nat(b)) % word_modulus(),
{
    let x = ethnum::U256::from_words(a.hi, a.lo);
    let y = ethnum::U256::from_words(b.hi, b.lo);
    let (hi, lo) = x.wrapping_mul(y).into_words();
    Word { hi, lo }
}

} // verus!
