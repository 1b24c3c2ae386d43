//! The key that the pool's coinbase outputs pay to.
use vstd::arithmetic::power::pow;
use vstd::prelude::*;

verus! {

use crate::bytes::{be_value, lemma_be_value_bound};

/// The order of the secp256k1 group: secret keys are the numbers from 1
/// up to one below it.
pub open spec fn secp256k1_order() -> nat {
    (pow(256, 32) - 0x14551231950B75FC4 * 0x10000000000000000 - 0x402DA1732FC9BEBF) as nat
}

/// The compressed secp256k1 public key of a secret key.
pub uninterp spec fn secp256k1_public_key(secret: Seq<u8>) -> Seq<u8>;

/// Relies on `bitcoin::PrivateKey::from_slice`, which takes exactly 32
/// bytes that `secp256k1_ec_seckey_verify` accepts (documented as: not 0
/// and below the group order), `bitcoin::PublicKey::from_private_key` and
/// `PublicKey::to_bytes`, which writes a key made by `from_slice` in its
/// 33-byte compressed form.
#[verifier::external_body]
fn public_key_of(secret: &Vec<u8>) -> (r: Option<Vec<u8>>)
    ensures
        r is Some ==> r->Some_0@ == secp256k1_public_key(secret@) && r->Some_0@.len() == 33,
        secret@.len() == 32 && 0 < be_value(secret@) < secp256k1_order() ==> r is Some,
{
    let sk = bitcoin::PrivateKey::from_slice(secret.as_slice(), bitcoin::Network::Testnet).ok()?;
    let secp = bitcoin::secp256k1::Secp256k1::new();
    Some(bitcoin::PublicKey::from_private_key(&secp, &sk).to_bytes())
}

/// The pool's secret key: 32 bytes of 0x22.
pub open spec fn pool_secret() -> Seq<u8> {
    Seq::new(32, |i: int| 34u8)
}

/// The public key of the pool's fixed secret key, compressed; `None` when
/// the key library refuses that secret.
pub fn new_pub_key() -> (r: Option<Vec<u8>>)
    ensures
        r is Some,
        r is Some ==> r->Some_0@ == secp256k1_public_key(pool_secret()) && r->Some_0@.len() == 33,
{
    let secret = vec![34u8; 32];
    assert(secret@ =~= pool_secret());
    proof {
        lemma_pool_secret_valid();
    }
    public_key_of(&secret)
}

/// The pool's secret key is a valid secp256k1 secret key.
pub proof fn lemma_pool_secret_valid()
    ensures
        0 < be_value(pool_secret()) < secp256k1_order(),
{
    let s = pool_secret();
    let rest = s.drop_first();
    lemma_be_value_bound(rest);
    assert(rest.len() == 31);
    let a = pow(256, 15);
    assert(a == 0x1000000000000000000000000000000int) by {
        reveal_with_fuel(pow, 16);
    }
    assert(pow(256, 16) == 256 * a) by {
        reveal_with_fuel(pow, 2);
    }
    vstd::arithmetic::power::lemma_pow_adds(256, 15, 16);
    assert(pow(256, 32) == 256 * pow(256, 31)) by {
        reveal_with_fuel(pow, 2);
    }
    let p = pow(256, 31);
    assert(be_value(s) == 34 * (p as nat) + be_value(rest));
}

} // verus!
