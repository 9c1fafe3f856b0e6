//! Per-superpixel statistics of a pixel labelling: how many input pixels each
//! superpixel holds and the sums of their column and row coordinates, from
//! which the superpixel centers are taken.

use vstd::prelude::*;

verus! {

/// Number of entries of `labels` equal to `s`.
pub open spec fn count_label(labels: Seq<usize>, s: int) -> nat
    decreases labels.len(),
{
    if labels.len() == 0 {
        0
    } else {
        count_label(labels.drop_last(), s) + (if labels.last() == s { 1nat } else { 0nat })
    }
}

/// Sum of the columns `i % w` of the pixels `i` labelled `s`.
pub open spec fn column_sum(labels: Seq<usize>, w: nat, s: int) -> nat
    decreases labels.len(),
{
    if labels.len() == 0 {
        0
    } else {
        let i = labels.len() - 1;
        column_sum(labels.drop_last(), w, s) + (if labels.last() == s { (i % (w as int)) as nat } else { 0nat })
    }
}

/// Sum of the rows `i / w` of the pixels `i` labelled `s`.
pub open spec fn row_sum(labels: Seq<usize>, w: nat, s: int) -> nat
    decreases labels.len(),
{
    if labels.len() == 0 {
        0
    } else {
        let i = labels.len() - 1;
        row_sum(labels.drop_last(), w, s) + (if labels.last() == s { (i / (w as int)) as nat } else { 0nat })
    }
}

/// Total of the label counts of the superpixels `0..n`.
pub open spec fn total_count(labels: Seq<usize>, n: nat) -> nat
    decreases n,
{
    if n == 0 {
        0
    } else {
        total_count(labels, (n - 1) as nat) + count_label(labels, n - 1)
    }
}

/// Every label lies below `n`.
pub open spec fn labels_below(labels: Seq<usize>, n: nat) -> bool {
    forall|i: int| 0 <= i < labels.len() ==> #[trigger] labels[i] < n
}

proof fn lemma_total_count_push(labels: Seq<usize>, l: usize, k: nat)
    ensures
        total_count(labels.push(l), k) == total_count(labels, k) + (if l < k { 1nat } else { 0nat }),
    decreases k,
{
    assert(labels.push(l).drop_last() == labels);
    if k > 0 {
        lemma_total_count_push(labels, l, (k - 1) as nat);
    }
}

/// Every input pixel belongs to exactly one superpixel: when all labels lie
/// below `n`, the pixel counts of the superpixels `0..n` add up to the
/// number of pixels.
pub proof fn lemma_counts_partition(labels: Seq<usize>, n: nat)
    requires
        labels_below(labels, n),
    ensures
        total_count(labels, n) == labels.len(),
    decreases labels.len(),
{
    if labels.len() == 0 {
        lemma_total_count_empty(labels, n);
    } else {
        let init = labels.drop_last();
        assert(labels_below(init, n)) by {
            assert forall|i: int| 0 <= i < init.len() implies #[trigger] init[i] < n by {
                assert(init[i] == labels[i]);
            }
        }
        lemma_counts_partition(init, n);
        assert(init.push(labels.last()) == labels);
        lemma_total_count_push(init, labels.last(), n);
    }
}

proof fn lemma_total_count_empty(labels: Seq<usize>, n: nat)
    requires
        labels.len() == 0,
    ensures
        total_count(labels, n) == 0,
    decreases n,
{
    if n > 0 {
        lemma_total_count_empty(labels, (n - 1) as nat);
    }
}

/// Sum of `g(0), ..., g(n - 1)`.
pub open spec fn sum_upto(n: nat, g: spec_fn(int) -> int) -> int {
    Seq::new(n, g).fold_left(0int, |acc: int, v: int| acc + v)
}

/// One for each pixel labelled `s`.
pub open spec fn count_weight(labels: Seq<usize>, s: int) -> spec_fn(int) -> int {
    |i: int| if labels[i] == s { 1int } else { 0int }
}

/// The column `i % w` of each pixel `i` labelled `s`.
pub open spec fn column_weight(labels: Seq<usize>, w: int, s: int) -> spec_fn(int) -> int {
    |i: int| if labels[i] == s { i % w } else { 0int }
}

/// The row `i / w` of each pixel `i` labelled `s`.
pub open spec fn row_weight(labels: Seq<usize>, w: int, s: int) -> spec_fn(int) -> int {
    |i: int| if labels[i] == s { i / w } else { 0int }
}

proof fn lemma_sum_upto_step(n: nat, g: spec_fn(int) -> int)
    ensures
        sum_upto(n + 1, g) == sum_upto(n, g) + g(n as int),
{
    assert(Seq::new(n + 1, g).drop_last() == Seq::new(n, g));
}

/// Counts and coordinate sums are plain sums over the pixels: the count of
/// `s` adds one for each pixel labelled `s`, the column sum adds `i % w` and
/// the row sum adds `i / w` for each such pixel `i`.
pub proof fn lemma_statistics_are_sums(labels: Seq<usize>, w: int, s: int)
    requires
        w >= 0,
        w > 0 || labels.len() == 0,
    ensures
        count_label(labels, s) == sum_upto(labels.len(), count_weight(labels, s)),
        column_sum(labels, w as nat, s) == sum_upto(labels.len(), column_weight(labels, w, s)),
        row_sum(labels, w as nat, s) == sum_upto(labels.len(), row_weight(labels, w, s)),
    decreases labels.len(),
{
    let gc = count_weight(labels, s);
    let gx = column_weight(labels, w, s);
    let gy = row_weight(labels, w, s);
    if labels.len() == 0 {
        assert(Seq::new(0, gc) == Seq::<int>::empty());
        assert(Seq::new(0, gx) == Seq::<int>::empty());
        assert(Seq::new(0, gy) == Seq::<int>::empty());
    } else {
        let init = labels.drop_last();
        let n = init.len();
        lemma_statistics_are_sums(init, w, s);
        let hc = count_weight(init, s);
        let hx = column_weight(init, w, s);
        let hy = row_weight(init, w, s);
        assert(Seq::new(n, hc) == Seq::new(n, gc));
        assert(Seq::new(n, hx) == Seq::new(n, gx));
        assert(Seq::new(n, hy) == Seq::new(n, gy));
        lemma_sum_upto_step(n, gc);
        lemma_sum_upto_step(n, gx);
        lemma_sum_upto_step(n, gy);
        assert(0 <= (n as int) % w);
        assert(0 <= (n as int) / w);
    }
}

/// Pixel counts and coordinate sums of every superpixel of a labelling.
pub struct LabelStats {
    /// Number of pixels labelled `s`.
    pub count: Vec<usize>,
    /// Sum of the columns of the pixels labelled `s`.
    pub sum_x: Vec<u128>,
    /// Sum of the rows of the pixels labelled `s`.
    pub sum_y: Vec<u128>,
}

/// Counts and coordinate sums of the pixels of a row-major image `w` wide,
/// labelled with superpixels `0..n`.
#[verifier::spinoff_prover]
pub fn label_statistics(labels: &[usize], w: usize, n: usize) -> (st: LabelStats)
    requires
        w > 0 || labels@.len() == 0,
        labels_below(labels@, n as nat),
    ensures
        st.count.len() == n,
        st.sum_x.len() == n,
        st.sum_y.len() == n,
        forall|s: int| 0 <= s < n ==> #[trigger] st.count@[s] == count_label(labels@, s),
        forall|s: int| 0 <= s < n ==> #[trigger] st.sum_x@[s] == column_sum(labels@, w as nat, s),
        forall|s: int| 0 <= s < n ==> #[trigger] st.sum_y@[s] == row_sum(labels@, w as nat, s),
        forall|s: int|
            0 <= s < n ==> #[trigger] st.count@[s] == sum_upto(labels@.len(), count_weight(labels@, s)),
        forall|s: int|
            0 <= s < n ==> #[trigger] st.sum_x@[s] == sum_upto(labels@.len(), column_weight(labels@, w as int, s)),
        forall|s: int|
            0 <= s < n ==> #[trigger] st.sum_y@[s] == sum_upto(labels@.len(), row_weight(labels@, w as int, s)),
{
    let mut count: Vec<usize> = Vec::new();
    let mut sum_x: Vec<u128> = Vec::new();
    let mut sum_y: Vec<u128> = Vec::new();
    let mut s: usize = 0;
    while s < n
        invariant
            s <= n,
            count.len() == s,
            sum_x.len() == s,
            sum_y.len() == s,
            forall|k: int| 0 <= k < s ==> count@[k] == 0 && sum_x@[k] == 0 && sum_y@[k] == 0,
        decreases n - s,
    {
        count.push(0);
        sum_x.push(0);
        sum_y.push(0);
        s += 1;
    }
    let len = labels.len();
    let mut i: usize = 0;
    while i < len
        invariant
            w > 0 || len == 0,
            len == labels@.len(),
            labels_below(labels@, n as nat),
            i <= len,
            count.len() == n,
            sum_x.len() == n,
            sum_y.len() == n,
            forall|k: int| 0 <= k < n ==> {
                &&& #[trigger] count@[k] == count_label(labels@.subrange(0, i as int), k)
                &&& sum_x@[k] == column_sum(labels@.subrange(0, i as int), w as nat, k)
                &&& sum_y@[k] == row_sum(labels@.subrange(0, i as int), w as nat, k)
                &&& count@[k] <= i
                &&& sum_x@[k] <= i * i
                &&& sum_y@[k] <= i * i
            },
        decreases len - i,
    {
        let l = labels[i];
        assert(l < n);
        assert(count@[l as int] <= i);
        let ghost prefix = labels@.subrange(0, i as int);
        let ghost next = labels@.subrange(0, i + 1);
        assert(next.drop_last() == prefix);
        let x = i % w;
        let y = i / w;
        assert(x <= i && y <= i) by (nonlinear_arith)
            requires w > 0, x == i % w, y == i / w;
        assert(sum_x@[l as int] + x <= (i + 1) * (i + 1) && sum_y@[l as int] + y <= (i + 1) * (i + 1))
            by (nonlinear_arith)
            requires sum_x@[l as int] <= i * i, sum_y@[l as int] <= i * i, x <= i, y <= i;
        assert((i + 1) * (i + 1) <= u128::MAX) by (nonlinear_arith)
            requires i + 1 <= 0xffff_ffff_ffff_ffffu64;
        let ghost (c0, sx0, sy0) = (count@, sum_x@, sum_y@);
        count.set(l, count[l] + 1);
        sum_x.set(l, sum_x[l] + x as u128);
        sum_y.set(l, sum_y[l] + y as u128);
        assert forall|k: int| 0 <= k < n implies {
            &&& #[trigger] count@[k] == count_label(next, k)
            &&& sum_x@[k] == column_sum(next, w as nat, k)
            &&& sum_y@[k] == row_sum(next, w as nat, k)
            &&& count@[k] <= i + 1
            &&& sum_x@[k] <= (i + 1) * (i + 1)
            &&& sum_y@[k] <= (i + 1) * (i + 1)
        } by {
            assert(next.last() == l);
            assert(next.len() - 1 == i);
            assert(c0[k] == count_label(prefix, k));
            assert(sx0[k] == column_sum(prefix, w as nat, k));
            assert(sy0[k] == row_sum(prefix, w as nat, k));
            assert(c0[k] <= i && sx0[k] <= i * i && sy0[k] <= i * i);
            assert((i + 1) * (i + 1) >= i * i + i) by (nonlinear_arith);
        }
        i += 1;
    }
    assert(labels@.subrange(0, len as int) == labels@);
    let ghost whole = labels@.subrange(0, len as int);
    assert forall|s: int| 0 <= s < n implies #[trigger] count@[s] == count_label(labels@, s) by {
        assert(count@[s] == count_label(whole, s));
    }
    assert forall|s: int| 0 <= s < n implies #[trigger] sum_x@[s] == column_sum(labels@, w as nat, s) by {
        assert(count@[s] == count_label(whole, s));
    }
    assert forall|s: int| 0 <= s < n implies #[trigger] sum_y@[s] == row_sum(labels@, w as nat, s) by {
        assert(count@[s] == count_label(whole, s));
    }
    assert forall|s: int| 0 <= s < n implies #[trigger] count@[s] == sum_upto(labels@.len(), count_weight(labels@, s)) by {
        lemma_statistics_are_sums(labels@, w as int, s);
    }
    assert forall|s: int| 0 <= s < n implies #[trigger] sum_x@[s] == sum_upto(
        labels@.len(),
        column_weight(labels@, w as int, s),
    ) by {
        lemma_statistics_are_sums(labels@, w as int, s);
        assert(sum_x@[s] == column_sum(labels@, w as nat, s));
    }
    assert forall|s: int| 0 <= s < n implies #[trigger] sum_y@[s] == sum_upto(
        labels@.len(),
        row_weight(labels@, w as int, s),
    ) by {
        lemma_statistics_are_sums(labels@, w as int, s);
        assert(sum_y@[s] == row_sum(labels@, w as nat, s));
    }
    let st = LabelStats { count, sum_x, sum_y };
    st
}

} // verus!
