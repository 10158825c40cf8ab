//! Deterministic derivation of note nonces from the wallet's root secret.
//!
//! The cryptographic key derivation that turns a derivation path into blind
//! key material is an external capability. The ledger and the recovery engine
//! rely on exactly one fact about it: the nonce is a pure function of
//! (root secret, amount tier, index), and distinct paths yield distinct
//! nonces. The model below keeps precisely that fact by representing a nonce
//! through the path that determines it; the ledger never looks inside.

use vstd::prelude::*;

verus! {

/// A single-use note identifier, blinded at issuance and unblinded at
/// redemption. Modelled by the derivation path that determines it.
#[derive(Clone, Copy, PartialEq, Eq, Structural, Debug, Hash)]
pub struct Nonce {
    pub secret_tag: u64,
    pub amount: u64,
    pub index: u64,
}

/// What `derive_nonce` returns: the nonce determined by the path
/// (root secret, amount tier, index).
pub open spec fn spec_derive_nonce(root_secret: u64, amount: u64, index: u64) -> Nonce {
    Nonce { secret_tag: root_secret, amount, index }
}

/// Pure derivation, used identically by live issuance and by recovery, so
/// that both paths agree on what index `n` of a denomination means.
/// It performs no storage access.
pub fn derive_nonce(root_secret: u64, amount: u64, index: u64) -> (n: Nonce)
    ensures
        n == spec_derive_nonce(root_secret, amount, index),
{
    Nonce { secret_tag: root_secret, amount, index }
}

/// Distinct derivation paths yield distinct nonces, the fact that lets
/// recovery attribute a matched history entry to exactly one index.
pub proof fn lemma_derive_nonce_injective(s1: u64, a1: u64, i1: u64, s2: u64, a2: u64, i2: u64)
    ensures
        spec_derive_nonce(s1, a1, i1) == spec_derive_nonce(s2, a2, i2) ==> (s1 == s2 && a1 == a2
            && i1 == i2),
{
}

/// Strict lexicographic order on nonces, used to keep the ledger's note list
/// in a canonical order.
pub open spec fn nonce_lt(a: Nonce, b: Nonce) -> bool {
    a.secret_tag < b.secret_tag || (a.secret_tag == b.secret_tag && (a.amount < b.amount || (
    a.amount == b.amount && a.index < b.index)))
}

/// Executable comparison agreeing with `nonce_lt`.
pub fn nonce_less(a: &Nonce, b: &Nonce) -> (r: bool)
    ensures
        r == nonce_lt(*a, *b),
{
    if a.secret_tag != b.secret_tag {
        a.secret_tag < b.secret_tag
    } else if a.amount != b.amount {
        a.amount < b.amount
    } else {
        a.index < b.index
    }
}

} // verus!
