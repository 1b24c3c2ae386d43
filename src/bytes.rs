//! Big-endian byte strings read as unsigned integers.
use vstd::arithmetic::power::pow;
use vstd::prelude::*;

verus! {

/// The unsigned integer that `s` encodes, most significant byte first.
pub open spec fn be_value(s: Seq<u8>) -> nat
    decreases s.len(),
{
    if s.len() == 0 {
        0
    } else {
        (s[0] as nat) * (pow(256, (s.len() - 1) as nat) as nat) + be_value(s.drop_first())
    }
}

/// Lexicographic order on byte strings of equal length.
pub open spec fn lex_le(a: Seq<u8>, b: Seq<u8>) -> bool
    decreases a.len(),
{
    if a.len() == 0 {
        true
    } else if a[0] != b[0] {
        a[0] < b[0]
    } else {
        lex_le(a.drop_first(), b.drop_first())
    }
}

pub proof fn lemma_pow256_pos(n: nat)
    ensures
        pow(256, n) > 0,
{
    vstd::arithmetic::power::lemma_pow_positive(256, n);
}

/// A string of `n` bytes encodes a value below `256^n`.
pub proof fn lemma_be_value_bound(s: Seq<u8>)
    ensures
        be_value(s) < pow(256, s.len()),
    decreases s.len(),
{
    if s.len() == 0 {
        vstd::arithmetic::power::lemma_pow0(256);
    } else {
        let n = (s.len() - 1) as nat;
        lemma_be_value_bound(s.drop_first());
        lemma_pow256_pos(n);
        vstd::arithmetic::power::lemma_pow_adds(256, n, 1);
        vstd::arithmetic::power::lemma_pow1(256);
        let p = pow(256, n);
        let d = s[0] as int;
        assert(d * p + p <= 256 * p) by (nonlinear_arith)
            requires
                d <= 255,
                p > 0,
        ;
        assert(pow(256, s.len()) == p * 256);
    }
}

/// On strings of equal length the lexicographic order is the numeric order.
pub proof fn lemma_lex_le_is_numeric(a: Seq<u8>, b: Seq<u8>)
    requires
        a.len() == b.len(),
    ensures
        lex_le(a, b) == (be_value(a) <= be_value(b)),
    decreases a.len(),
{
    if a.len() > 0 {
        let n = (a.len() - 1) as nat;
        let p = pow(256, n);
        lemma_pow256_pos(n);
        lemma_be_value_bound(a.drop_first());
        lemma_be_value_bound(b.drop_first());
        lemma_lex_le_is_numeric(a.drop_first(), b.drop_first());
        let x = a[0] as int;
        let y = b[0] as int;
        let ra = be_value(a.drop_first()) as int;
        let rb = be_value(b.drop_first()) as int;
        if x < y {
            assert(x * p + ra < y * p + rb) by (nonlinear_arith)
                requires
                    x < y,
                    0 <= ra < p,
                    0 <= rb,
            ;
        } else if x > y {
            assert(x * p + ra > y * p + rb) by (nonlinear_arith)
                requires
                    x > y,
                    0 <= rb < p,
                    0 <= ra,
            ;
        }
    }
}

/// Whether `a` encodes a value at most that of `b`, both read big-endian.
pub fn be_le(a: &Vec<u8>, b: &Vec<u8>) -> (r: bool)
    requires
        a@.len() == b@.len(),
    ensures
        r == (be_value(a@) <= be_value(b@)),
{
    let mut i: usize = 0;
    assert(a@.skip(0) == a@);
    assert(b@.skip(0) == b@);
    while i < a.len() && a[i] == b[i]
        invariant
            i <= a@.len() == b@.len(),
            a@.subrange(0, i as int) == b@.subrange(0, i as int),
            lex_le(a@, b@) == lex_le(a@.skip(i as int), b@.skip(i as int)),
        decreases a@.len() - i,
    {
        assert(a@.skip(i as int).drop_first() == a@.skip(i + 1));
        assert(b@.skip(i as int).drop_first() == b@.skip(i + 1));
        assert(a@.subrange(0, i + 1) == a@.subrange(0, i as int).push(a[i as int]));
        assert(b@.subrange(0, i + 1) == b@.subrange(0, i as int).push(b[i as int]));
        i = i + 1;
    }
    proof {
        lemma_lex_le_is_numeric(a@, b@);
    }
    if i == a.len() {
        true
    } else {
        a[i] < b[i]
    }
}

/// Copies a byte slice into a vector.
pub fn slice_to_vec(s: &[u8]) -> (r: Vec<u8>)
    ensures
        r@ == s@,
{
    let mut r: Vec<u8> = Vec::new();
    let mut i: usize = 0;
    while i < s.len()
        invariant
            i <= s@.len(),
            r@ == s@.take(i as int),
        decreases s@.len() - i,
    {
        r.push(s[i]);
        assert(s@.take(i + 1) =~= s@.take(i as int).push(s@[i as int]));
        i = i + 1;
    }
    assert(s@.take(i as int) =~= s@);
    r
}

/// The bytes of `s` in the opposite order.
pub open spec fn reversed(s: Seq<u8>) -> Seq<u8> {
    Seq::new(s.len(), |i: int| s[s.len() - 1 - i])
}

/// Reverses a byte string.
pub fn reverse_bytes(s: &Vec<u8>) -> (r: Vec<u8>)
    ensures
        r@ == reversed(s@),
{
    let mut r: Vec<u8> = Vec::new();
    let mut i: usize = s.len();
    while i > 0
        invariant
            i <= s@.len(),
            r@.len() == s@.len() - i,
            forall|k: int| 0 <= k < r@.len() ==> r@[k] == s@[s@.len() - 1 - k],
        decreases i,
    {
        i = i - 1;
        r.push(s[i]);
    }
    assert(r@ == reversed(s@));
    r
}

} // verus!
