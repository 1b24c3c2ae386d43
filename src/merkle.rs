//! Coinbase assembly and the merkle root of a candidate block.
use vstd::prelude::*;

verus! {

use crate::hash::{hash256, sha256d};

/// Copies `a` followed by `b` into a new vector.
pub fn concat(a: &Vec<u8>, b: &Vec<u8>) -> (r: Vec<u8>)
    ensures
        r@ == a@ + b@,
{
    let mut r = a.clone();
    let mut rest = b.clone();
    assert(r@ =~= a@);
    assert(rest@ =~= b@);
    r.append(&mut rest);
    r
}

/// The byte strings held by a vector of vectors.
pub open spec fn views(v: Seq<Vec<u8>>) -> Seq<Seq<u8>> {
    v.map_values(|x: Vec<u8>| x@)
}

/// The coinbase transaction: prefix, then extranonce, then suffix.
pub open spec fn coinbase(prefix: Seq<u8>, extranonce: Seq<u8>, suffix: Seq<u8>) -> Seq<u8> {
    prefix + extranonce + suffix
}

/// Hashes `leaf` up the tree, joining it on the right with each sibling of
/// `path` in order.
pub open spec fn fold_path(leaf: Seq<u8>, path: Seq<Seq<u8>>) -> Seq<u8>
    decreases path.len(),
{
    if path.len() == 0 {
        leaf
    } else {
        sha256d(fold_path(leaf, path.drop_last()) + path.last())
    }
}

/// The merkle root of a block whose coinbase is built from the given parts
/// and whose other transactions are summed up by `path`.
pub open spec fn merkle_root(
    prefix: Seq<u8>,
    suffix: Seq<u8>,
    extranonce: Seq<u8>,
    path: Seq<Seq<u8>>,
) -> Seq<u8> {
    fold_path(sha256d(coinbase(prefix, extranonce, suffix)), path)
}

/// Builds the coinbase transaction from its parts.
pub fn build_coinbase(prefix: &Vec<u8>, extranonce: &Vec<u8>, suffix: &Vec<u8>) -> (r: Vec<u8>)
    ensures
        r@ == coinbase(prefix@, extranonce@, suffix@),
{
    let head = concat(prefix, extranonce);
    concat(&head, suffix)
}

/// Computes the merkle root from the coinbase parts and the merkle path.
pub fn merkle_root_from_path(
    prefix: &Vec<u8>,
    suffix: &Vec<u8>,
    extranonce: &Vec<u8>,
    path: &Vec<Vec<u8>>,
) -> (r: Vec<u8>)
    ensures
        r@ == merkle_root(prefix@, suffix@, extranonce@, views(path@)),
        r@.len() == 32,
{
    let cb = build_coinbase(prefix, extranonce, suffix);
    let mut acc = hash256(&cb);
    let ghost leaf = acc@;
    let mut i: usize = 0;
    assert(views(path@).take(0) =~= Seq::<Seq<u8>>::empty());
    while i < path.len()
        invariant
            i <= path@.len(),
            leaf == sha256d(coinbase(prefix@, extranonce@, suffix@)),
            acc@ == fold_path(leaf, views(path@).take(i as int)),
            acc@.len() == 32,
        decreases path@.len() - i,
    {
        let joined = concat(&acc, &path[i]);
        acc = hash256(&joined);
        assert(views(path@).take(i + 1).drop_last() =~= views(path@).take(i as int));
        i = i + 1;
    }
    assert(views(path@).take(i as int) =~= views(path@));
    acc
}

} // verus!
