//! Partitioning of the extranonce field into a pool-reserved range, a
//! channel-unique range and a range left to the miner.
use vstd::arithmetic::power::pow;
use vstd::prelude::*;

verus! {

use crate::bytes::{be_value, lemma_be_value_bound, lemma_pow256_pos};
use crate::errors::Error;

/// `n` copies of the byte `b`.
pub open spec fn repeat(b: u8, n: nat) -> Seq<u8> {
    Seq::new(n, |i: int| b)
}

/// `be_value(a + b) == be_value(a) * 256^|b| + be_value(b)`.
pub proof fn lemma_be_value_concat(a: Seq<u8>, b: Seq<u8>)
    ensures
        be_value(a + b) == be_value(a) * pow(256, b.len()) + be_value(b),
    decreases a.len(),
{
    if a.len() == 0 {
        assert(a + b =~= b);
        assert(be_value(a) == 0);
        let p = pow(256, b.len());
        assert(0 * p == 0) by (nonlinear_arith);
    } else {
        let rest = a.drop_first();
        assert((a + b).drop_first() =~= rest + b);
        lemma_be_value_concat(rest, b);
        let n = b.len();
        let m = rest.len();
        vstd::arithmetic::power::lemma_pow_adds(256, m, n);
        let pm = pow(256, m);
        let pn = pow(256, n);
        let x = a[0] as int;
        let r = be_value(rest) as int;
        lemma_pow256_pos(m);
        lemma_pow256_pos(n);
        assert((a + b)[0] == a[0]);
        assert((a + b).len() - 1 == m + n);
        assert(pow(256, ((a + b).len() - 1) as nat) == pm * pn);
        assert(be_value(a) == x * pm + r);
        assert(x * (pm * pn) + r * pn == (x * pm + r) * pn) by (nonlinear_arith);
        assert(be_value(a + b) == x * (pm * pn) + be_value(rest + b));
        assert(be_value(rest + b) == r * pn + be_value(b));
        let va = be_value(a) as int;
        let vab = be_value(a + b) as int;
        let vb = be_value(b) as int;
        assert(vab == va * pn + vb) by (nonlinear_arith)
            requires
                vab == x * (pm * pn) + (r * pn + vb),
                va == x * pm + r,
        ;
    }
}

/// A run of zero bytes encodes zero; a run of 0xff bytes encodes `256^n - 1`.
pub proof fn lemma_be_value_repeat(n: nat)
    ensures
        be_value(repeat(0, n)) == 0,
        be_value(repeat(255, n)) + 1 == pow(256, n),
    decreases n,
{
    if n == 0 {
        vstd::arithmetic::power::lemma_pow0(256);
    } else {
        lemma_be_value_repeat((n - 1) as nat);
        assert(repeat(0, n).drop_first() =~= repeat(0, (n - 1) as nat));
        assert(repeat(255, n).drop_first() =~= repeat(255, (n - 1) as nat));
        vstd::arithmetic::power::lemma_pow_adds(256, (n - 1) as nat, 1);
        vstd::arithmetic::power::lemma_pow1(256);
        let p = pow(256, (n - 1) as nat);
        lemma_pow256_pos((n - 1) as nat);
        assert(255 * p + p == p * 256) by (nonlinear_arith);
        assert(repeat(0, n)[0] == 0);
        assert(0 * (p as nat) == 0) by (nonlinear_arith);
    }
}

/// A single byte encodes itself.
pub proof fn lemma_be_value_single(x: u8)
    ensures
        be_value(seq![x]) == x,
{
    let s = seq![x];
    assert(s.drop_first() =~= Seq::<u8>::empty());
    assert(be_value(Seq::<u8>::empty()) == 0);
    vstd::arithmetic::power::lemma_pow0(256);
    assert(be_value(s) == (x as nat) * (pow(256, 0) as nat) + be_value(s.drop_first()));
    assert(pow(256, 0) as nat == 1nat);
    assert((x as nat) * 1nat == x);
}

/// Adding one to `a ++ [x] ++ 0xff..` carries into `a ++ [x + 1] ++ 0..`.
pub proof fn lemma_be_value_increment(a: Seq<u8>, x: u8, t: nat)
    requires
        x < 255,
    ensures
        be_value(a + seq![x] + repeat(255, t)) + 1 == be_value(
            a + seq![(x + 1) as u8] + repeat(0, t),
        ),
{
    lemma_be_value_concat(a + seq![x], repeat(255, t));
    lemma_be_value_concat(a + seq![(x + 1) as u8], repeat(0, t));
    lemma_be_value_concat(a, seq![x]);
    lemma_be_value_concat(a, seq![(x + 1) as u8]);
    lemma_be_value_repeat(t);
    vstd::arithmetic::power::lemma_pow1(256);
    lemma_be_value_single(x);
    lemma_be_value_single((x + 1) as u8);
    let v = be_value(a) as int;
    let p = pow(256, t);
    assert((v * 256 + x) * p + p == (v * 256 + x + 1) * p) by (nonlinear_arith);
}

/// Hands out per-channel extranonce prefixes. The field is split into
/// `0..r1_start` (reserved for the pool, all zero), `r1_start..r1_end`
/// (a big-endian counter, unique per channel) and `r1_end..r2_end` (searched
/// by the miner).
pub struct ExtendedExtranonce {
    inner: Vec<u8>,
    r1_start: usize,
    r1_end: usize,
    r2_end: usize,
    /// Every prefix handed out so far, in order.
    issued: Ghost<Seq<Seq<u8>>>,
}

/// The value of the channel-unique range of `p`.
pub open spec fn counter_of(p: Seq<u8>, r1_start: int, r1_end: int) -> nat {
    be_value(p.subrange(r1_start, r1_end))
}

impl ExtendedExtranonce {
    pub closed spec fn spec_r1_start(&self) -> nat {
        self.r1_start as nat
    }

    pub closed spec fn spec_r1_end(&self) -> nat {
        self.r1_end as nat
    }

    pub closed spec fn spec_r2_end(&self) -> nat {
        self.r2_end as nat
    }

    /// The prefixes handed out so far, oldest first.
    pub closed spec fn issued(&self) -> Seq<Seq<u8>> {
        self.issued@
    }

    pub closed spec fn wf(&self) -> bool {
        &&& self.r1_start <= self.r1_end <= self.r2_end <= 32
        &&& self.inner@.len() == self.r2_end
        &&& self.inner@.subrange(0, self.r1_start as int) == repeat(0, self.r1_start as nat)
        &&& counter_of(self.inner@, self.r1_start as int, self.r1_end as int)
            == self.issued@.len()
        &&& forall|i: int|
            #![trigger self.issued@[i]]
            0 <= i < self.issued@.len() ==> {
                &&& self.issued@[i].len() == self.r1_end
                &&& counter_of(self.issued@[i], self.r1_start as int, self.r1_end as int) == i
                    + 1
            }
    }

    /// The ranges of a well-formed generator are ordered and end within 32
    /// bytes.
    pub proof fn lemma_ranges(&self)
        requires
            self.wf(),
        ensures
            self.spec_r1_start() <= self.spec_r1_end() <= self.spec_r2_end() <= 32,
    {
    }

    /// A generator over the ranges `r0`, `r1`, `r2`, which must be adjacent
    /// and end within 32 bytes.
    pub fn new(
        r0: std::ops::Range<usize>,
        r1: std::ops::Range<usize>,
        r2: std::ops::Range<usize>,
    ) -> (r: Self)
        requires
            r0.start == 0,
            r0.start <= r0.end,
            r0.end == r1.start,
            r1.start <= r1.end,
            r1.end == r2.start,
            r2.start <= r2.end <= 32,
        ensures
            r.wf(),
            r.spec_r1_start() == r1.start,
            r.spec_r1_end() == r1.end,
            r.spec_r2_end() == r2.end,
            r.issued() == Seq::<Seq<u8>>::empty(),
    {
        let inner = vec![0u8; r2.end];
        proof {
            assert(inner@.subrange(0, r1.start as int) =~= repeat(0, r1.start as nat));
            assert(inner@.subrange(r1.start as int, r1.end as int) =~= repeat(
                0,
                (r1.end - r1.start) as nat,
            ));
            lemma_be_value_repeat((r1.end - r1.start) as nat);
        }
        ExtendedExtranonce {
            inner,
            r1_start: r1.start,
            r1_end: r1.end,
            r2_end: r2.end,
            issued: Ghost(Seq::empty()),
        }
    }

    /// Length of the whole extranonce field.
    pub fn extranonce_len(&self) -> (r: usize)
        requires
            self.wf(),
        ensures
            r == self.spec_r2_end(),
    {
        self.r2_end
    }

    /// Length of the prefixes handed out: the reserved and unique ranges.
    pub fn prefix_len(&self) -> (r: usize)
        requires
            self.wf(),
        ensures
            r == self.spec_r1_end(),
    {
        self.r1_end
    }

    /// Advances the channel-unique counter by one and returns the new
    /// prefix: the reserved zero bytes followed by the counter. Fails, and
    /// changes nothing, when the counter is at its largest value.
    pub fn next_prefix(&mut self) -> (r: Result<Vec<u8>, Error>)
        requires
            old(self).wf(),
        ensures
            final(self).wf(),
            final(self).spec_r1_start() == old(self).spec_r1_start(),
            final(self).spec_r1_end() == old(self).spec_r1_end(),
            final(self).spec_r2_end() == old(self).spec_r2_end(),
            (r is Err) == (old(self).issued().len() + 1 == pow(
                256,
                (old(self).spec_r1_end() - old(self).spec_r1_start()) as nat,
            )),
            r is Err ==> r == Err::<Vec<u8>, Error>(Error::NoMoreExtranonces) && *final(self)
                == *old(self),
            r is Ok ==> {
                let p = r->Ok_0@;
                &&& final(self).issued() == old(self).issued().push(p)
                &&& p.len() == old(self).spec_r1_end()
                &&& p.subrange(0, old(self).spec_r1_start() as int) == repeat(
                    0,
                    old(self).spec_r1_start(),
                )
                &&& counter_of(
                    p,
                    old(self).spec_r1_start() as int,
                    old(self).spec_r1_end() as int,
                ) == old(self).issued().len() + 1
            },
    {
        let ghost s = self.r1_start as int;
        let ghost e = self.r1_end as int;
        let ghost old_inner = self.inner@;
        let mut k: usize = self.r1_end;
        while k > self.r1_start && self.inner[k - 1] == 255
            invariant
                self.r1_start <= k <= self.r1_end <= self.inner@.len(),
                forall|j: int| k <= j < self.r1_end ==> self.inner@[j] == 255,
            decreases k,
        {
            k = k - 1;
        }
        if k == self.r1_start {
            proof {
                assert(old_inner.subrange(s, e) =~= repeat(255, (e - s) as nat));
                lemma_be_value_repeat((e - s) as nat);
            }
            return Err(Error::NoMoreExtranonces);
        }
        let i: usize = k - 1;
        let x: u8 = self.inner[i];
        self.inner.set(i, x + 1);
        let mut j: usize = k;
        while j < self.r1_end
            invariant
                k <= j <= self.r1_end <= self.inner@.len() == old_inner.len(),
                self.r1_start == s,
                self.r1_end == e,
                self.r2_end == old(self).r2_end,
                self.issued == old(self).issued,
                self.r1_start <= i < k,
                self.inner@[i as int] == x + 1,
                forall|m: int|
                    0 <= m < self.inner@.len() && m != i && !(k <= m < j) ==> self.inner@[m]
                        == old_inner[m],
                forall|m: int| k <= m < j ==> self.inner@[m] == 0,
            decreases self.r1_end - j,
        {
            self.inner.set(j, 0);
            j = j + 1;
        }
        let mut p: Vec<u8> = Vec::new();
        let mut m: usize = 0;
        while m < self.r1_end
            invariant
                m <= self.r1_end <= self.inner@.len(),
                p@ == self.inner@.subrange(0, m as int),
            decreases self.r1_end - m,
        {
            p.push(self.inner[m]);
            assert(self.inner@.subrange(0, m + 1) =~= self.inner@.subrange(0, m as int).push(
                self.inner[m as int],
            ));
            m = m + 1;
        }
        proof {
            let a = old_inner.subrange(s, i as int);
            let t = (e - k) as nat;
            assert(old_inner.subrange(s, e) =~= a + seq![x] + repeat(255, t));
            assert(self.inner@.subrange(s, e) =~= a + seq![(x + 1) as u8] + repeat(0, t));
            lemma_be_value_increment(a, x, t);
            lemma_be_value_bound(self.inner@.subrange(s, e));
            assert(self.inner@.subrange(0, s) =~= old_inner.subrange(0, s));
            assert(p@ =~= self.inner@.subrange(0, e));
            assert(p@.subrange(s, e) =~= self.inner@.subrange(s, e));
            assert(p@.subrange(0, s) =~= self.inner@.subrange(0, s));
            self.issued = Ghost(self.issued@.push(p@));
            assert(forall|q: int|
                #![trigger self.issued@[q]]
                0 <= q < old(self).issued@.len() ==> self.issued@[q] == old(self).issued@[q]);
        }
        Ok(p)
    }
}

/// Prefixes handed out by one generator are pairwise distinct.
pub proof fn lemma_issued_prefixes_distinct(g: &ExtendedExtranonce, i: int, j: int)
    requires
        g.wf(),
        0 <= i < g.issued().len(),
        0 <= j < g.issued().len(),
        i != j,
    ensures
        g.issued()[i] != g.issued()[j],
{
}

} // verus!
