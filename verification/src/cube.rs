use vstd::prelude::*;

use vstd::arithmetic::div_mod::{
    lemma_fundamental_div_mod, lemma_fundamental_div_mod_converse,
    lemma_mod_division_less_than_divisor, lemma_multiply_divide_lt, lemma_div_pos_is_pos,
};

verus! {

/// An n-dimensional block of samples. `shape` lists the extent of every
/// axis in storage order (axis 0 varies slowest); `data` holds the samples
/// row-major, so the last axis varies fastest.
#[derive(Debug)]
pub struct Cube<T> {
    pub shape: Vec<usize>,
    pub data: Vec<T>,
}

/// Number of samples a shape describes: the product of its extents.
pub open spec fn extent_product(s: Seq<usize>) -> int
    decreases s.len(),
{
    if s.len() == 0 {
        1
    } else {
        extent_product(s.drop_last()) * s.last()
    }
}

/// `idx` addresses one sample of a cube with shape `s`.
pub open spec fn valid_index(idx: Seq<int>, s: Seq<usize>) -> bool {
    &&& idx.len() == s.len()
    &&& forall|k: int| 0 <= k < idx.len() ==> 0 <= #[trigger] idx[k] < s[k]
}

/// Row-major offset of the sample addressed by `idx` in a cube of shape `s`.
pub open spec fn flat_index(idx: Seq<int>, s: Seq<usize>) -> int
    decreases idx.len(),
{
    if idx.len() == 0 {
        0
    } else {
        flat_index(idx.drop_last(), s.drop_last()) * s.last() + idx.last()
    }
}

/// Multi-axis index of the sample at row-major offset `f` in shape `s`.
pub open spec fn multi_index(f: int, s: Seq<usize>) -> Seq<int>
    decreases s.len(),
{
    if s.len() == 0 {
        Seq::empty()
    } else {
        multi_index(f / s.last() as int, s.drop_last()).push(f % s.last() as int)
    }
}

/// `p` rearranges the axis positions `0..n`: it lists each exactly once.
pub open spec fn is_axis_order(p: Seq<usize>, n: nat) -> bool {
    &&& p.len() == n
    &&& forall|k: int| 0 <= k < n ==> (#[trigger] p[k]) < n
    &&& forall|k1: int, k2: int|
        0 <= k1 < n && 0 <= k2 < n && p[k1] == p[k2] ==> k1 == k2
    &&& forall|a: usize| a < n ==> #[trigger] p.contains(a)
}

/// Shape of a cube after reordering its axes so that new axis `k` is old
/// axis `p[k]`.
pub open spec fn permuted_shape(s: Seq<usize>, p: Seq<usize>) -> Seq<usize> {
    Seq::new(p.len(), |k: int| s[p[k] as int])
}

/// The index, in the reordered cube, of the sample that the original cube
/// addresses with `idx`: component `k` reads the old component `p[k]`.
pub open spec fn permuted_index(p: Seq<usize>, idx: Seq<int>) -> Seq<int> {
    Seq::new(p.len(), |k: int| idx[p[k] as int])
}

impl<T> Cube<T> {
    /// The sample count matches the shape.
    pub open spec fn wf(&self) -> bool {
        self.data@.len() == extent_product(self.shape@)
    }

    /// Number of axes.
    pub open spec fn spec_naxis(&self) -> nat {
        self.shape@.len()
    }

    /// The sample addressed by `idx`.
    pub open spec fn spec_sel(&self, idx: Seq<int>) -> T {
        self.data@[flat_index(idx, self.shape@)]
    }
}

/// `r` is `c` with its axes reordered by `p`: same samples, addressed
/// through the permuted indices, under the permuted shape.
pub open spec fn is_permuted<T>(c: Cube<T>, p: Seq<usize>, r: Cube<T>) -> bool {
    &&& r.shape@ == permuted_shape(c.shape@, p)
    &&& r.data@.len() == extent_product(r.shape@)
    &&& forall|idx: Seq<int>|
        #[trigger] valid_index(idx, c.shape@) ==> r.spec_sel(permuted_index(p, idx))
            == c.spec_sel(idx)
}

/// A valid index exists only when every extent is at least one.
proof fn lemma_valid_index_extents(idx: Seq<int>, s: Seq<usize>)
    requires
        valid_index(idx, s),
    ensures
        forall|k: int| 0 <= k < s.len() ==> (#[trigger] s[k]) >= 1,
{
    assert forall|k: int| 0 <= k < s.len() implies (#[trigger] s[k]) >= 1 by {
        assert(0 <= idx[k] < s[k]);
    }
}

/// A prefix of a shape with no zero extents describes no more samples than
/// the whole shape.
pub proof fn lemma_extent_product_prefix(s: Seq<usize>, j: int)
    requires
        0 <= j <= s.len(),
        forall|k: int| 0 <= k < s.len() ==> (#[trigger] s[k]) >= 1,
    ensures
        extent_product(s.take(j)) <= extent_product(s),
        extent_product(s.take(j)) >= 1,
    decreases s.len() - j,
{
    assert forall|k: int| 0 <= k < s.take(j).len() implies (#[trigger] s.take(j)[k]) >= 1 by {
        assert(s.take(j)[k] == s[k]);
    }
    lemma_extent_product_positive(s.take(j));
    if j == s.len() {
        assert(s.take(j) =~= s);
    } else {
        lemma_extent_product_prefix(s, j + 1);
        assert(s.take(j + 1).drop_last() =~= s.take(j));
        let pj = extent_product(s.take(j));
        let e = s.take(j + 1).last() as int;
        assert(e == s[j]);
        assert(extent_product(s.take(j + 1)) == pj * e);
        assert(pj * e >= pj) by (nonlinear_arith)
            requires
                pj >= 1 && e >= 1,
        ;
    }
}

/// A shape with no zero extents describes at least one sample.
pub proof fn lemma_extent_product_positive(s: Seq<usize>)
    requires
        forall|k: int| 0 <= k < s.len() ==> (#[trigger] s[k]) >= 1,
    ensures
        extent_product(s) >= 1,
    decreases s.len(),
{
    if s.len() > 0 {
        lemma_extent_product_positive(s.drop_last());
        let p = extent_product(s.drop_last());
        let e = s.last() as int;
        assert(p * e >= 1) by (nonlinear_arith)
            requires p >= 1 && e >= 1,
        ;
    }
}

/// The row-major offset of a valid index lies within the sample count.
pub proof fn lemma_flat_index_bounds(idx: Seq<int>, s: Seq<usize>)
    requires
        valid_index(idx, s),
    ensures
        0 <= flat_index(idx, s) < extent_product(s),
    decreases idx.len(),
{
    if idx.len() == 0 {
    } else {
        assert(valid_index(idx.drop_last(), s.drop_last()));
        lemma_flat_index_bounds(idx.drop_last(), s.drop_last());
        let q = flat_index(idx.drop_last(), s.drop_last());
        let pp = extent_product(s.drop_last());
        let l = s.last() as int;
        let r = idx.last();
        assert(0 <= r < l);
        assert(0 <= q * l + r && q * l + r < pp * l) by (nonlinear_arith)
            requires 0 <= q, q < pp, 0 <= r, r < l,
        ;
    }
}

/// Distinct valid indices have distinct row-major offsets.
pub proof fn lemma_flat_index_injective(i1: Seq<int>, i2: Seq<int>, s: Seq<usize>)
    requires
        valid_index(i1, s),
        valid_index(i2, s),
        flat_index(i1, s) == flat_index(i2, s),
    ensures
        i1 == i2,
    decreases s.len(),
{
    if s.len() == 0 {
        assert(i1 =~= i2);
    } else {
        let l = s.last() as int;
        let q1 = flat_index(i1.drop_last(), s.drop_last());
        let q2 = flat_index(i2.drop_last(), s.drop_last());
        let x = flat_index(i1, s);
        assert(l >= 1);
        lemma_fundamental_div_mod_converse(x, l, q1, i1.last());
        lemma_fundamental_div_mod_converse(x, l, q2, i2.last());
        assert(valid_index(i1.drop_last(), s.drop_last()));
        assert(valid_index(i2.drop_last(), s.drop_last()));
        lemma_flat_index_injective(i1.drop_last(), i2.drop_last(), s.drop_last());
        assert(i1 =~= i1.drop_last().push(i1.last()));
        assert(i2 =~= i2.drop_last().push(i2.last()));
    }
}

/// Every offset within the sample count is the offset of exactly one valid
/// index, namely its multi-axis decomposition.
pub proof fn lemma_multi_index_correct(f: int, s: Seq<usize>)
    requires
        0 <= f < extent_product(s),
    ensures
        valid_index(multi_index(f, s), s),
        flat_index(multi_index(f, s), s) == f,
    decreases s.len(),
{
    if s.len() == 0 {
        assert(multi_index(f, s) =~= Seq::<int>::empty());
    } else {
        let l = s.last() as int;
        let pp = extent_product(s.drop_last());
        assert(l >= 1 && pp >= 1) by (nonlinear_arith)
            requires 0 <= f, f < pp * l, l >= 0,
        ;
        let q = f / l;
        let r = f % l;
        lemma_fundamental_div_mod(f, l);
        lemma_mod_division_less_than_divisor(f, l);
        lemma_div_pos_is_pos(f, l);
        assert(pp * l == l * pp) by (nonlinear_arith);
        lemma_multiply_divide_lt(f, l, pp);
        lemma_multi_index_correct(q, s.drop_last());
        let m = multi_index(f, s);
        let mp = multi_index(q, s.drop_last());
        assert(m == mp.push(r));
        assert(m.drop_last() =~= mp);
        assert(valid_index(m, s));
        assert(flat_index(m, s) == q * l + r);
        assert(q * l == l * q) by (nonlinear_arith);
    }
}

/// Removing one extent divides the sample count by that extent.
pub proof fn lemma_extent_product_remove(s: Seq<usize>, a: int)
    requires
        0 <= a < s.len(),
    ensures
        extent_product(s) == extent_product(s.remove(a)) * s[a] as int,
    decreases s.len(),
{
    let n = s.len() as int;
    if a == n - 1 {
        assert(s.remove(a) =~= s.drop_last());
    } else {
        let l = s.last() as int;
        assert(s.remove(a).last() == s.last());
        assert(s.remove(a).drop_last() =~= s.drop_last().remove(a));
        lemma_extent_product_remove(s.drop_last(), a);
        let pr = extent_product(s.drop_last().remove(a));
        let e = s[a] as int;
        assert(extent_product(s) == (pr * e) * l);
        assert(extent_product(s.remove(a)) == pr * l);
        assert((pr * e) * l == (pr * l) * e) by (nonlinear_arith);
    }
}

/// Reordering the axes does not change the sample count.
pub proof fn lemma_extent_product_permuted(s: Seq<usize>, p: Seq<usize>)
    requires
        is_axis_order(p, s.len()),
        s.len() <= usize::MAX,
    ensures
        extent_product(permuted_shape(s, p)) == extent_product(s),
    decreases s.len(),
{
    let n = s.len() as int;
    let ns = permuted_shape(s, p);
    if n == 0 {
        assert(ns =~= Seq::<usize>::empty());
    } else {
        let a = p[n - 1] as int;
        let sr = s.remove(a);
        let pr = Seq::new((n - 1) as nat, |k: int|
            if (p[k] as int) < a {
                p[k]
            } else {
                (p[k] - 1) as usize
            });
        assert forall|b: usize| b < sr.len() implies #[trigger] pr.contains(b) by {
            if (b as int) < a {
                assert(p.contains(b));
                let k = choose|k: int| 0 <= k < p.len() && p[k] == b;
                assert(k != n - 1);
                assert(pr[k] == b);
                assert(0 <= k < pr.len() && pr[k] == b);
            } else {
                assert(b + 1 <= usize::MAX);
                let c = (b + 1) as usize;
                assert(c as int == b + 1);
                assert(c < n);
                assert(p.contains(c));
                let k = choose|k: int| 0 <= k < p.len() && p[k] == c;
                assert(c as int > a);
                assert(p[k] != p[n - 1]);
                assert(k != n - 1);
                assert(!((p[k] as int) < a));
                assert(pr[k] == (p[k] - 1) as usize);
                assert(pr[k] == b);
                assert(0 <= k < pr.len() && pr[k] == b);
            }
        }
        assert forall|k1: int, k2: int|
            0 <= k1 < n - 1 && 0 <= k2 < n - 1 && pr[k1] == pr[k2] implies k1 == k2 by {
            assert(p[k1] != a && p[k2] != a);
            if (p[k1] as int) < a && (p[k2] as int) >= a {
                assert(pr[k1] as int == p[k1] && pr[k2] as int == p[k2] - 1);
                assert(p[k2] as int > a);
                assert(false);
            } else if (p[k1] as int) >= a && (p[k2] as int) < a {
                assert(p[k1] as int > a);
                assert(false);
            }
        }
        assert(is_axis_order(pr, sr.len()));
        assert(permuted_shape(sr, pr) =~= ns.drop_last()) by {
            assert forall|k: int| 0 <= k < n - 1 implies permuted_shape(sr, pr)[k]
                == ns.drop_last()[k] by {
                assert(p[k] != a);
                if (p[k] as int) < a {
                    assert(sr[pr[k] as int] == s[p[k] as int]);
                } else {
                    assert(sr[pr[k] as int] == s[(pr[k] + 1) as int]);
                }
            }
        }
        lemma_extent_product_permuted(sr, pr);
        lemma_extent_product_remove(s, a);
        assert(ns.last() == s[a]);
        assert(extent_product(ns) == extent_product(sr) * s[a] as int);
    }
}

/// The views of executable indices are sequences of machine integers; the
/// index specs above speak of mathematical integers.
pub open spec fn to_int_seq(s: Seq<usize>) -> Seq<int> {
    s.map_values(|v: usize| v as int)
}

/// Computes the sample count of a shape, or reports that it exceeds the
/// machine's address range.
pub fn checked_extent_product(shape: &Vec<usize>) -> (r: Option<usize>)
    ensures
        r matches Some(p) ==> p as int == extent_product(shape@),
        r is None ==> extent_product(shape@) > usize::MAX,
{
    let n = shape.len();
    for k in 0..n
        invariant
            n == shape@.len(),
            forall|j: int| 0 <= j < k ==> (#[trigger] shape@[j]) >= 1,
    {
        if shape[k] == 0 {
            proof {
                lemma_extent_product_remove(shape@, k as int);
            }
            return Some(0);
        }
    }
    let mut acc: usize = 1;
    for k in 0..n
        invariant
            n == shape@.len(),
            forall|j: int| 0 <= j < n ==> (#[trigger] shape@[j]) >= 1,
            acc as int == extent_product(shape@.take(k as int)),
    {
        proof {
            assert(shape@.take(k + 1).drop_last() =~= shape@.take(k as int));
            assert(shape@.take(k + 1).last() == shape@[k as int]);
        }
        match acc.checked_mul(shape[k]) {
            Some(next) => {
                acc = next;
            },
            None => {
                proof {
                    lemma_extent_product_prefix(shape@, k + 1);
                }
                return None;
            },
        }
    }
    proof {
        assert(shape@.take(n as int) =~= shape@);
    }
    Some(acc)
}

impl<T> Cube<T> {
    /// Number of axes.
    pub fn naxis(&self) -> (n: usize)
        ensures
            n == self.spec_naxis(),
    {
        self.shape.len()
    }

    /// Builds a cube after checking that the sample count matches the
    /// shape; `None` when it does not.
    pub fn new(shape: Vec<usize>, data: Vec<T>) -> (r: Option<Cube<T>>)
        ensures
            r matches Some(c) ==> c.shape@ == shape@ && c.data@ == data@ && c.wf(),
            r is None ==> data@.len() != extent_product(shape@),
    {
        let len = data.len();
        match checked_extent_product(&shape) {
            Some(p) => {
                if p == len {
                    Some(Cube { shape, data })
                } else {
                    None
                }
            },
            None => None,
        }
    }
}

/// Decomposes a row-major offset into the multi-axis index it addresses.
fn multi_of(f: usize, shape: &Vec<usize>) -> (r: Vec<usize>)
    requires
        f < extent_product(shape@),
    ensures
        to_int_seq(r@) == multi_index(f as int, shape@),
{
    let n = shape.len();
    let mut rest = f;
    let mut r: Vec<usize> = Vec::new();
    let mut k = n;
    proof {
        assert(shape@.take(n as int) =~= shape@);
        assert(to_int_seq(r@) =~= Seq::<int>::empty());
    }
    while k > 0
        invariant
            k <= n,
            n == shape@.len(),
            rest < extent_product(shape@.take(k as int)),
            multi_index(f as int, shape@) == multi_index(
                rest as int,
                shape@.take(k as int),
            ) + to_int_seq(r@),
        decreases k,
    {
        let ghost pre = shape@.take(k as int);
        let ghost old_rest = rest as int;
        let ghost old_r = r@;
        let l = shape[k - 1];
        proof {
            assert(pre.last() == shape@[k - 1]);
            assert(pre.drop_last() =~= shape@.take(k - 1));
            let pp = extent_product(shape@.take(k - 1));
            assert(extent_product(pre) == pp * l);
            assert(l >= 1 && pp >= 1) by (nonlinear_arith)
                requires
                    0 <= rest < pp * l,
                    l >= 0,
            ;
            lemma_mod_division_less_than_divisor(rest as int, l as int);
            lemma_div_pos_is_pos(rest as int, l as int);
            assert(pp * l == l * pp) by (nonlinear_arith);
            lemma_multiply_divide_lt(rest as int, l as int, pp);
        }
        let digit = rest % l;
        r.insert(0, digit);
        rest = rest / l;
        k = k - 1;
        proof {
            let m = multi_index(rest as int, shape@.take(k as int));
            assert(multi_index(old_rest, shape@.take(k + 1)) == m.push(digit as int));
            assert(r@ == old_r.insert(0, digit));
            assert(to_int_seq(r@) =~= seq![digit as int] + to_int_seq(old_r));
            assert(m.push(digit as int) + to_int_seq(old_r) =~= m + (seq![digit as int]
                + to_int_seq(old_r)));
        }
    }
    proof {
        assert(multi_index(rest as int, shape@.take(0)) =~= Seq::<int>::empty());
        assert(Seq::<int>::empty() + to_int_seq(r@) =~= to_int_seq(r@));
    }
    r
}

/// The identity axis order: new axis `k` is old axis `k`.
pub open spec fn identity_order(n: nat) -> Seq<usize> {
    Seq::new(n, |k: int| k as usize)
}

/// The identity axis order is a valid axis order.
pub proof fn lemma_identity_is_axis_order(n: nat)
    requires
        n <= usize::MAX,
    ensures
        is_axis_order(identity_order(n), n),
{
    let p = identity_order(n);
    assert forall|a: usize| a < n implies #[trigger] p.contains(a) by {
        assert(p[a as int] == a);
        assert(exists|i: int| 0 <= i < p.len() && p[i] == a);
    }
}

/// Reordering a cube by the identity axis order leaves both its shape and
/// its sample sequence unchanged.
pub proof fn lemma_permute_identity<T>(c: Cube<T>, r: Cube<T>)
    requires
        c.wf(),
        c.spec_naxis() <= usize::MAX,
        is_permuted(c, identity_order(c.spec_naxis()), r),
    ensures
        r.shape@ == c.shape@,
        r.data@ == c.data@,
{
    let n = c.spec_naxis();
    let s = c.shape@;
    let p = identity_order(n);
    assert(r.shape@ =~= s);
    assert forall|f: int| 0 <= f < c.data@.len() implies r.data@[f] == c.data@[f] by {
        let idx = multi_index(f, s);
        lemma_multi_index_correct(f, s);
        assert(valid_index(idx, c.shape@));
        assert(permuted_index(p, idx) =~= idx);
        assert(r.spec_sel(idx) == c.spec_sel(idx));
    }
    assert(r.data@ =~= c.data@);
}

/// Round trip: reordering a cube's axes by an order `p` and then by `p`'s
/// inverse `q` restores the original shape and sample sequence exactly.
pub proof fn lemma_permute_round_trip<T>(
    c: Cube<T>,
    p: Seq<usize>,
    q: Seq<usize>,
    c1: Cube<T>,
    c2: Cube<T>,
)
    requires
        c.wf(),
        c.spec_naxis() <= usize::MAX,
        is_axis_order(p, c.spec_naxis()),
        q.len() == p.len(),
        forall|k: int| 0 <= k < p.len() ==> (#[trigger] q[p[k] as int]) as int == k,
        forall|a: int|
            0 <= a < p.len() ==> (#[trigger] q[a]) < p.len() && p[q[a] as int] as int == a,
        is_permuted(c, p, c1),
        is_permuted(c1, q, c2),
    ensures
        c2.shape@ == c.shape@,
        c2.data@ == c.data@,
{
    let n = c.spec_naxis();
    let s = c.shape@;
    assert(c2.shape@ =~= s) by {
        assert forall|a: int| 0 <= a < n implies c2.shape@[a] == s[a] by {
            assert(c2.shape@[a] == c1.shape@[q[a] as int]);
            assert(c1.shape@[q[a] as int] == s[p[q[a] as int] as int]);
            assert(p[q[a] as int] as int == a);
        }
    }
    lemma_extent_product_permuted(s, p);
    assert forall|f: int| 0 <= f < c.data@.len() implies c2.data@[f] == c.data@[f] by {
        let idx = multi_index(f, s);
        lemma_multi_index_correct(f, s);
        assert(valid_index(idx, c.shape@));
        let jdx = permuted_index(p, idx);
        assert(valid_index(jdx, c1.shape@)) by {
            assert forall|k: int| 0 <= k < n implies 0 <= #[trigger] jdx[k] < c1.shape@[k] by {
                assert(0 <= idx[p[k] as int] < s[p[k] as int]);
            }
        }
        assert(c1.spec_sel(jdx) == c.spec_sel(idx));
        assert(c2.spec_sel(permuted_index(q, jdx)) == c1.spec_sel(jdx));
        assert(permuted_index(q, jdx) =~= idx) by {
            assert forall|a: int| 0 <= a < n implies permuted_index(q, jdx)[a] == idx[a] by {
                assert(jdx[q[a] as int] == idx[p[q[a] as int] as int]);
                assert(p[q[a] as int] as int == a);
            }
        }
        assert(flat_index(idx, s) == f);
    }
    assert(c2.data@ =~= c.data@);
}

/// Composes a multi-axis index back into its row-major offset.
fn flat_of(idx: &Vec<usize>, shape: &Vec<usize>) -> (r: usize)
    requires
        valid_index(to_int_seq(idx@), shape@),
        extent_product(shape@) <= usize::MAX,
    ensures
        r as int == flat_index(to_int_seq(idx@), shape@),
{
    let n = shape.len();
    let ghost iseq = to_int_seq(idx@);
    proof {
        lemma_valid_index_extents(iseq, shape@);
    }
    let mut acc: usize = 0;
    for k in 0..n
        invariant
            n == shape@.len(),
            valid_index(iseq, shape@),
            iseq == to_int_seq(idx@),
            extent_product(shape@) <= usize::MAX,
            forall|j: int| 0 <= j < n ==> (#[trigger] shape@[j]) >= 1,
            acc as int == flat_index(iseq.take(k as int), shape@.take(k as int)),
            acc < extent_product(shape@.take(k as int)),
    {
        proof {
            assert(iseq.take(k + 1).drop_last() =~= iseq.take(k as int));
            assert(shape@.take(k + 1).drop_last() =~= shape@.take(k as int));
            assert(iseq.take(k + 1).last() == iseq[k as int]);
            assert(shape@.take(k + 1).last() == shape@[k as int]);
            assert(valid_index(iseq.take(k + 1), shape@.take(k + 1)));
            lemma_flat_index_bounds(iseq.take(k + 1), shape@.take(k + 1));
            lemma_extent_product_prefix(shape@, k + 1);
        }
        acc = acc * shape[k] + idx[k];
    }
    proof {
        assert(iseq.take(n as int) =~= iseq);
        assert(shape@.take(n as int) =~= shape@);
    }
    acc
}

/// Builds the inverse of an axis order: position `a` of the result holds
/// the new position `k` at which old axis `a` now stands.
pub fn invert_axis_order(order: &Vec<usize>) -> (r: Vec<usize>)
    requires
        is_axis_order(order@, order@.len() as nat),
    ensures
        r@.len() == order@.len(),
        forall|k: int| 0 <= k < order@.len() ==> (#[trigger] r@[order@[k] as int]) as int == k,
        forall|a: int|
            0 <= a < order@.len() ==> (#[trigger] r@[a]) < order@.len()
                && order@[r@[a] as int] as int == a,
        is_axis_order(r@, order@.len() as nat),
{
    let n = order.len();
    let mut inv: Vec<usize> = Vec::new();
    for a in 0..n
        invariant
            inv@.len() == a,
    {
        inv.push(0);
    }
    for k in 0..n
        invariant
            n == order@.len(),
            is_axis_order(order@, n as nat),
            inv@.len() == n,
            forall|k2: int| 0 <= k2 < k ==> (#[trigger] inv@[order@[k2] as int]) as int == k2,
    {
        let a = order[k];
        inv[a] = k;
        proof {
            assert forall|k2: int|
                0 <= k2 < k + 1 implies (#[trigger] inv@[order@[k2] as int]) as int == k2 by {
                if k2 < k as int {
                    assert(order@[k2] != order@[k as int]);
                }
            }
        }
    }
    proof {
        assert forall|a: int|
            0 <= a < n implies (#[trigger] inv@[a]) < n && order@[inv@[a] as int] as int == a by {
            assert(order@.contains(a as usize));
            let k = choose|k: int| 0 <= k < order@.len() && order@[k] == a as usize;
            assert(inv@[a] as int == k);
        }
        assert forall|k1: int, k2: int|
            0 <= k1 < n && 0 <= k2 < n && inv@[k1] == inv@[k2] implies k1 == k2 by {
            assert(order@[inv@[k1] as int] as int == k1);
            assert(order@[inv@[k2] as int] as int == k2);
        }
        assert forall|b: usize| b < n implies #[trigger] inv@.contains(b) by {
            if b < n {
                assert(inv@[order@[b as int] as int] == b);
                assert(exists|i: int| 0 <= i < inv@.len() && inv@[i] == b);
            }
        }
    }
    inv
}

impl<T: Copy> Cube<T> {
    /// Reorders the cube's axes so that new axis `k` is old axis
    /// `order[k]`: the result's shape lists the old extents in the order
    /// given, and every sample keeps its multi-axis address up to that
    /// renumbering. No sample value is changed, only where it stands.
    pub fn permute(&self, order: &Vec<usize>) -> (r: Cube<T>)
        requires
            self.wf(),
            is_axis_order(order@, self.spec_naxis()),
        ensures
            r.wf(),
            is_permuted(*self, order@, r),
    {
        let n = self.shape.len();
        let ghost s = self.shape@;
        let ghost p = order@;
        proof {
            lemma_extent_product_permuted(s, p);
        }
        let mut new_shape: Vec<usize> = Vec::new();
        for k in 0..n
            invariant
                n == s.len(),
                s == self.shape@,
                p == order@,
                is_axis_order(p, n as nat),
                new_shape@ == permuted_shape(s, p).take(k as int),
        {
            new_shape.push(self.shape[order[k]]);
            proof {
                assert(new_shape@ =~= permuted_shape(s, p).take(k + 1));
            }
        }
        proof {
            assert(new_shape@ =~= permuted_shape(s, p));
        }
        let ghost ns = new_shape@;
        let inv = invert_axis_order(order);
        let ghost q = inv@;
        let total = self.data.len();
        let mut new_data: Vec<T> = Vec::new();
        for f2 in 0..total
            invariant
                n == s.len(),
                s == self.shape@,
                p == order@,
                ns == new_shape@,
                q == inv@,
                is_axis_order(p, n as nat),
                q.len() == n,
                forall|k: int| 0 <= k < n ==> (#[trigger] q[p[k] as int]) as int == k,
                forall|a: int|
                    0 <= a < n ==> (#[trigger] q[a]) < n && p[q[a] as int] as int == a,
                ns == permuted_shape(s, p),
                total == self.data@.len(),
                total == extent_product(s),
                total == extent_product(ns),
                new_data@.len() == f2,
                forall|g: int|
                    0 <= g < f2 ==> #[trigger] new_data@[g] == self.data@[flat_index(
                        permuted_index(q, multi_index(g, ns)),
                        s,
                    )],
        {
            let j = multi_of(f2, &new_shape);
            let ghost jdx = multi_index(f2 as int, ns);
            proof {
                lemma_multi_index_correct(f2 as int, ns);
            }
            let mut iv: Vec<usize> = Vec::new();
            for a in 0..n
                invariant
                    n == s.len(),
                    q == inv@,
                    q.len() == n,
                    forall|b: int| 0 <= b < n ==> (#[trigger] q[b]) < n,
                    to_int_seq(j@) == jdx,
                    jdx.len() == n,
                    iv@.len() == a,
                    forall|b: int| 0 <= b < a ==> (#[trigger] iv@[b]) == j@[q[b] as int],
            {
                iv.push(j[inv[a]]);
            }
            proof {
                assert(to_int_seq(iv@) =~= permuted_index(q, jdx)) by {
                    assert forall|b: int| 0 <= b < n implies to_int_seq(iv@)[b] == permuted_index(
                        q,
                        jdx,
                    )[b] by {
                        assert(iv@[b] == j@[q[b] as int]);
                        assert(to_int_seq(j@)[q[b] as int] == jdx[q[b] as int]);
                    }
                }
                assert(valid_index(permuted_index(q, jdx), s)) by {
                    assert forall|b: int| 0 <= b < n implies 0 <= #[trigger] permuted_index(
                        q,
                        jdx,
                    )[b] < s[b] by {
                        assert(0 <= jdx[q[b] as int] < ns[q[b] as int]);
                        assert(ns[q[b] as int] == s[p[q[b] as int] as int]);
                        assert(p[q[b] as int] as int == b);
                    }
                }
                lemma_flat_index_bounds(permuted_index(q, jdx), s);
            }
            let f1 = flat_of(&iv, &self.shape);
            new_data.push(self.data[f1]);
        }
        let r = Cube { shape: new_shape, data: new_data };
        proof {
            assert forall|idx: Seq<int>|
                #[trigger] valid_index(idx, s) implies r.spec_sel(permuted_index(p, idx))
                == self.spec_sel(idx) by {
                let jdx = permuted_index(p, idx);
                assert(valid_index(jdx, ns)) by {
                    assert forall|k: int| 0 <= k < n implies 0 <= #[trigger] jdx[k] < ns[k] by {
                        assert(0 <= idx[p[k] as int] < s[p[k] as int]);
                    }
                }
                lemma_flat_index_bounds(jdx, ns);
                let g = flat_index(jdx, ns);
                lemma_multi_index_correct(g, ns);
                lemma_flat_index_injective(multi_index(g, ns), jdx, ns);
                assert(permuted_index(q, jdx) =~= idx) by {
                    assert forall|a: int| 0 <= a < n implies permuted_index(q, jdx)[a]
                        == idx[a] by {
                        assert(jdx[q[a] as int] == idx[p[q[a] as int] as int]);
                        assert(p[q[a] as int] as int == a);
                    }
                }
            }
        }
        r
    }
}

} // verus!
