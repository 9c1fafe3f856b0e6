//! Palette colors as groups of sub-clusters.
//!
//! Every palette color owns one or two sub-clusters. The association and
//! refinement steps treat all sub-clusters alike, as one flat list in palette
//! order, and remember which palette color owns each entry; the results are
//! written back group by group. Splitting a color moves its second
//! sub-cluster into a palette color of its own.

use vstd::prelude::*;
use crate::labels::count_label;

verus! {

/// The contents of each group, as plain sequences.
pub open spec fn group_views<T>(groups: Seq<Vec<T>>) -> Seq<Seq<T>> {
    groups.map_values(|g: Vec<T>| g@)
}

/// All entries of all groups, group after group.
pub open spec fn concat<T>(groups: Seq<Seq<T>>) -> Seq<T>
    decreases groups.len(),
{
    if groups.len() == 0 {
        Seq::empty()
    } else {
        concat(groups.drop_last()) + groups.last()
    }
}

/// For every entry of `concat(groups)`, the index of the group holding it.
pub open spec fn owners<T>(groups: Seq<Seq<T>>) -> Seq<usize>
    decreases groups.len(),
{
    if groups.len() == 0 {
        Seq::empty()
    } else {
        owners(groups.drop_last()) + Seq::new(groups.last().len(), |c: int| (groups.len() - 1) as usize)
    }
}

/// Total number of entries of all groups.
pub open spec fn total_len<T>(groups: Seq<Seq<T>>) -> nat
    decreases groups.len(),
{
    if groups.len() == 0 {
        0
    } else {
        total_len(groups.drop_last()) + groups.last().len()
    }
}

/// Two lists of groups with the same number of groups, each of the same size.
pub open spec fn same_shape<T>(a: Seq<Seq<T>>, b: Seq<Seq<T>>) -> bool {
    &&& a.len() == b.len()
    &&& forall|k: int| 0 <= k < a.len() ==> #[trigger] a[k].len() == b[k].len()
}

proof fn lemma_concat_len<T>(groups: Seq<Seq<T>>)
    ensures
        concat(groups).len() == total_len(groups),
        owners(groups).len() == total_len(groups),
        forall|j: int| 0 <= j < owners(groups).len() ==> #[trigger] owners(groups)[j] < groups.len(),
    decreases groups.len(),
{
    if groups.len() > 0 {
        lemma_concat_len(groups.drop_last());
    }
}

/// Groups of the same shape that hold the same entries in order are the same.
pub proof fn lemma_concat_determines<T>(a: Seq<Seq<T>>, b: Seq<Seq<T>>)
    requires
        same_shape(a, b),
        concat(a) == concat(b),
    ensures
        a == b,
    decreases a.len(),
{
    if a.len() > 0 {
        let (ia, ib) = (a.drop_last(), b.drop_last());
        assert(same_shape(ia, ib)) by {
            assert forall|k: int| 0 <= k < ia.len() implies #[trigger] ia[k].len() == ib[k].len() by {
                assert(a[k].len() == b[k].len());
            }
        }
        lemma_concat_len(ia);
        lemma_concat_len(ib);
        lemma_shape_total(ia, ib);
        let n = concat(ia).len() as int;
        assert(concat(ia) == concat(a).subrange(0, n));
        assert(concat(ib) == concat(b).subrange(0, n));
        lemma_concat_determines(ia, ib);
        assert(a.last() == concat(a).subrange(n, concat(a).len() as int));
        assert(b.last() == concat(b).subrange(n, concat(b).len() as int));
        assert(a == ia.push(a.last()));
        assert(b == ib.push(b.last()));
    }
}

proof fn lemma_shape_total<T>(a: Seq<Seq<T>>, b: Seq<Seq<T>>)
    requires
        same_shape(a, b),
    ensures
        total_len(a) == total_len(b),
    decreases a.len(),
{
    if a.len() > 0 {
        let (ia, ib) = (a.drop_last(), b.drop_last());
        assert(same_shape(ia, ib)) by {
            assert forall|k: int| 0 <= k < ia.len() implies #[trigger] ia[k].len() == ib[k].len() by {
                assert(a[k].len() == b[k].len());
            }
        }
        lemma_shape_total(ia, ib);
        assert(a[a.len() - 1].len() == b[b.len() - 1].len());
    }
}

proof fn lemma_group_views_take<T>(groups: Seq<Vec<T>>, k: int)
    requires
        0 <= k < groups.len(),
    ensures
        group_views(groups).take(k + 1).drop_last() == group_views(groups).take(k),
        group_views(groups).take(k + 1).last() == groups[k]@,
        group_views(groups).take(k + 1).len() == k + 1,
{
    assert(group_views(groups).take(k + 1).drop_last() == group_views(groups).take(k));
}

/// The entries of all groups, group after group, are the standard
/// flattening of the groups.
pub proof fn lemma_concat_is_flatten<T>(groups: Seq<Seq<T>>)
    ensures
        concat(groups) == groups.flatten(),
    decreases groups.len(),
{
    if groups.len() > 0 {
        lemma_concat_is_flatten(groups.drop_last());
    }
    assert(concat(groups) == groups.flatten_alt()) by {
        lemma_concat_alt(groups);
    }
    groups.lemma_flatten_and_flatten_alt_are_equivalent();
}

proof fn lemma_concat_alt<T>(groups: Seq<Seq<T>>)
    ensures
        concat(groups) == groups.flatten_alt(),
    decreases groups.len(),
{
    if groups.len() > 0 {
        lemma_concat_alt(groups.drop_last());
    }
}

proof fn lemma_owners_sorted<T>(groups: Seq<Seq<T>>)
    requires
        groups.len() <= usize::MAX,
    ensures
        forall|j1: int, j2: int|
            0 <= j1 <= j2 < owners(groups).len() ==> owners(groups)[j1] <= owners(groups)[j2],
    decreases groups.len(),
{
    if groups.len() > 0 {
        let init = groups.drop_last();
        lemma_owners_sorted(init);
        lemma_concat_len(init);
        lemma_concat_len(groups);
        let o = owners(groups);
        let oi = owners(init);
        let m = oi.len() as int;
        assert(o == oi + Seq::new(groups.last().len(), |c: int| (groups.len() - 1) as usize));
        assert forall|j1: int, j2: int| 0 <= j1 <= j2 < o.len() implies o[j1] <= o[j2] by {
            if j2 < m {
                assert(o[j1] == oi[j1] && o[j2] == oi[j2]);
            } else if j1 < m {
                assert(o[j1] == oi[j1]);
                assert(oi[j1] < init.len());
                assert(o[j2] == (groups.len() - 1) as usize);
            } else {
                assert(o[j1] == (groups.len() - 1) as usize);
                assert(o[j2] == (groups.len() - 1) as usize);
            }
        }
    }
}

/// All sub-clusters in palette order, together with the index of the palette
/// color owning each of them.
pub fn flatten<T: Copy>(groups: &Vec<Vec<T>>) -> (res: (Vec<T>, Vec<usize>))
    ensures
        res.0@ == concat(group_views(groups@)),
        res.1@ == owners(group_views(groups@)),
        res.0.len() == res.1.len(),
        forall|j: int| 0 <= j < res.1.len() ==> #[trigger] res.1@[j] < groups.len(),
        res.0@ == group_views(groups@).flatten(),
        forall|j1: int, j2: int| 0 <= j1 <= j2 < res.1.len() ==> res.1@[j1] <= res.1@[j2],
        forall|k: int| 0 <= k < groups.len() ==> count_label(res.1@, k) == #[trigger] groups@[k]@.len(),
{
    let ghost views = group_views(groups@);
    let mut flat: Vec<T> = Vec::new();
    let mut owner: Vec<usize> = Vec::new();
    let mut k: usize = 0;
    assert(views.take(0) == Seq::<Seq<T>>::empty());
    while k < groups.len()
        invariant
            views == group_views(groups@),
            k <= groups.len(),
            flat@ == concat(views.take(k as int)),
            owner@ == owners(views.take(k as int)),
        decreases groups.len() - k,
    {
        let g = &groups[k];
        let mut c: usize = 0;
        let ghost flat0 = flat@;
        let ghost owner0 = owner@;
        while c < g.len()
            invariant
                views == group_views(groups@),
                k < groups.len(),
                *g == groups@[k as int],
                c <= g.len(),
                flat@ == flat0 + g@.take(c as int),
                owner@ == owner0 + Seq::new(c as nat, |i: int| k),
            decreases g.len() - c,
        {
            flat.push(g[c]);
            owner.push(k);
            assert(g@.take(c + 1) == g@.take(c as int).push(g@[c as int]));
            assert(Seq::new((c + 1) as nat, |i: int| k) == Seq::new(c as nat, |i: int| k).push(k));
            c += 1;
        }
        proof {
            lemma_group_views_take(groups@, k as int);
            assert(g@.take(c as int) == g@);
            let tk = views.take(k + 1);
            assert(tk.last() == g@);
            assert(tk.len() - 1 == k);
            assert(Seq::new(c as nat, |i: int| k) == Seq::new(tk.last().len(), |i: int| (tk.len() - 1) as usize));
        }
        k += 1;
    }
    assert(views.take(groups.len() as int) == views);
    proof {
        lemma_concat_len(views);
        lemma_concat_is_flatten(views);
        lemma_owners_sorted(views);
        assert forall|k: int| 0 <= k < groups.len() implies count_label(owner@, k) == #[trigger] groups@[k]@.len() by {
            lemma_owned_entries(views, k);
            assert(views[k] == groups@[k]@);
        }
    }
    (flat, owner)
}

proof fn lemma_total_len_take<T>(groups: Seq<Seq<T>>, k: int)
    requires
        0 <= k <= groups.len(),
    ensures
        total_len(groups.take(k)) <= total_len(groups),
    decreases groups.len(),
{
    if k == groups.len() {
        assert(groups.take(k) == groups);
    } else {
        assert(groups.drop_last().take(k) == groups.take(k));
        lemma_total_len_take(groups.drop_last(), k);
    }
}

/// Replace the entries of every group, in order, by those of `flat`,
/// keeping the size of each group.
#[verifier::spinoff_prover]
pub fn refill<T: Copy>(groups: &mut Vec<Vec<T>>, flat: &[T])
    requires
        flat@.len() == total_len(group_views(old(groups)@)),
    ensures
        same_shape(group_views(final(groups)@), group_views(old(groups)@)),
        concat(group_views(final(groups)@)) == flat@,
        final(groups).len() == old(groups).len(),
        forall|k: int| 0 <= k < final(groups).len() ==> #[trigger] final(groups)@[k].len() == old(groups)@[k].len(),
        group_views(final(groups)@).flatten() == flat@,
{
    let ghost views = group_views(groups@);
    let flen = flat.len();
    let mut result: Vec<Vec<T>> = Vec::new();
    let ghost mut rv: Seq<Seq<T>> = Seq::empty();
    let mut j: usize = 0;
    let mut k: usize = 0;
    assert(views.take(0) == Seq::<Seq<T>>::empty());
    while k < groups.len()
        invariant
            views == group_views(groups@),
            flat@.len() == total_len(views),
            flen == flat@.len(),
            k <= groups.len(),
            rv == group_views(result@),
            rv.len() == k,
            same_shape(rv, views.take(k as int)),
            j == total_len(views.take(k as int)),
            concat(rv) == flat@.take(j as int),
        decreases groups.len() - k,
    {
        let n = groups[k].len();
        proof {
            lemma_group_views_take(groups@, k as int);
            lemma_total_len_take(views, k + 1);
            let tk = views.take(k + 1);
            assert(tk.drop_last() == views.take(k as int));
            assert(tk.last().len() == n);
            assert(total_len(tk) == j + n);
        }
        let mut inner: Vec<T> = Vec::new();
        let mut c: usize = 0;
        while c < n
            invariant
                j + n <= flen,
                flen == flat@.len(),
                c <= n,
                inner@ == flat@.subrange(j as int, j + c),
            decreases n - c,
        {
            inner.push(flat[j + c]);
            c += 1;
        }
        let ghost rv0 = rv;
        result.push(inner);
        proof {
            rv = rv.push(inner@);
            assert(rv == group_views(result@));
            assert(rv.drop_last() == rv0);
            assert(flat@.take(j + n) == flat@.take(j as int) + inner@);
            let tk = views.take(k + 1);
            assert forall|i: int| 0 <= i < rv.len() implies #[trigger] rv[i].len() == tk[i].len() by {
                if i < k {
                    assert(rv[i] == rv0[i]);
                    assert(tk[i] == views.take(k as int)[i]);
                }
            }
        }
        j = j + n;
        k += 1;
    }
    assert(views.take(k as int) == views);
    assert(flat@.take(j as int) == flat@);
    proof {
        lemma_concat_is_flatten(rv);
        assert forall|i: int| 0 <= i < result.len() implies #[trigger] result@[i].len() == groups@[i].len() by {
            assert(rv[i] == result@[i]@);
            assert(views.take(k as int)[i] == groups@[i]@);
        }
    }
    *groups = result;
}

/// Number of palette colors that own a column of an association: one more
/// than the largest owner, or zero when there are no columns.
pub fn owner_count(owner: &[usize]) -> (n: usize)
    requires
        forall|j: int| 0 <= j < owner.len() ==> #[trigger] owner@[j] < usize::MAX,
    ensures
        owner.len() == 0 ==> n == 0,
        forall|j: int| 0 <= j < owner.len() ==> #[trigger] owner@[j] < n,
        owner.len() > 0 ==> exists|j: int| 0 <= j < owner.len() && #[trigger] owner@[j] + 1 == n,
{
    let mut n: usize = 0;
    let mut j: usize = 0;
    while j < owner.len()
        invariant
            forall|i: int| 0 <= i < owner.len() ==> #[trigger] owner@[i] < usize::MAX,
            j <= owner.len(),
            forall|i: int| 0 <= i < j ==> #[trigger] owner@[i] < n,
            j == 0 ==> n == 0,
            j > 0 ==> exists|i: int| 0 <= i < j && #[trigger] owner@[i] + 1 == n,
        decreases owner.len() - j,
    {
        if owner[j] + 1 > n {
            n = owner[j] + 1;
        }
        j += 1;
    }
    n
}

proof fn lemma_total_len_update<T>(groups: Seq<Seq<T>>, k: int, v: Seq<T>)
    requires
        0 <= k < groups.len(),
    ensures
        total_len(groups.update(k, v)) + groups[k].len() == total_len(groups) + v.len(),
    decreases groups.len(),
{
    let u = groups.update(k, v);
    if k == groups.len() - 1 {
        assert(u.drop_last() == groups.drop_last());
    } else {
        assert(u.drop_last() == groups.drop_last().update(k, v));
        lemma_total_len_update(groups.drop_last(), k, v);
    }
}

/// Split the palette colors listed in `order`, in that order, until the
/// palette holds `max_len` colors: each loses its second sub-cluster, which
/// becomes a palette color of its own at the end of the palette. Returns the
/// number of colors split.
#[verifier::spinoff_prover]
pub fn split_off_second<T>(groups: &mut Vec<Vec<T>>, order: &[usize], max_len: usize) -> (n: usize)
    requires
        forall|t: int| 0 <= t < order.len() ==> {
            &&& #[trigger] order@[t] < old(groups).len()
            &&& old(groups)@[order@[t] as int].len() >= 2
        },
        forall|t1: int, t2: int| 0 <= t1 < t2 < order.len() ==> order@[t1] != order@[t2],
    ensures
        n == (if old(groups).len() < max_len {
            if order.len() < max_len - old(groups).len() { order.len() as int } else { max_len - old(groups).len() }
        } else {
            0
        }),
        final(groups).len() == old(groups).len() + n,
        old(groups).len() <= max_len ==> final(groups).len() <= max_len,
        forall|t: int| 0 <= t < n ==> {
            &&& #[trigger] final(groups)@[order@[t] as int]@ == old(groups)@[order@[t] as int]@.remove(1)
            &&& final(groups)@[old(groups).len() + t]@ == seq![old(groups)@[order@[t] as int]@[1]]
        },
        forall|k: int| 0 <= k < old(groups).len() && !order@.take(n as int).contains(k as usize)
            ==> #[trigger] final(groups)@[k] == old(groups)@[k],
        total_len(group_views(final(groups)@)) == total_len(group_views(old(groups)@)),
{
    let ghost g0 = groups@;
    let n0 = groups.len();
    let mut n: usize = 0;
    if n0 < max_len {
        while n < order.len() && groups.len() < max_len
            invariant
                n0 == g0.len(),
                n0 < max_len,
                n0 + n <= max_len,
                n <= order.len(),
                groups.len() == n0 + n,
                forall|t: int| 0 <= t < order.len() ==> {
                    &&& #[trigger] order@[t] < n0
                    &&& g0[order@[t] as int].len() >= 2
                },
                forall|t1: int, t2: int| 0 <= t1 < t2 < order.len() ==> order@[t1] != order@[t2],
                forall|t: int| 0 <= t < n ==> {
                    &&& #[trigger] groups@[order@[t] as int]@ == g0[order@[t] as int]@.remove(1)
                    &&& groups@[n0 + t]@ == seq![g0[order@[t] as int]@[1]]
                },
                forall|k: int| 0 <= k < n0 && !order@.take(n as int).contains(k as usize)
                    ==> #[trigger] groups@[k] == g0[k],
                total_len(group_views(groups@)) == total_len(group_views(g0)),
            decreases order.len() - n,
        {
            let k = order[n];
            let ghost before = groups@;
            assert(!order@.take(n as int).contains(k)) by {
                if order@.take(n as int).contains(k) {
                    let u = choose|u: int| 0 <= u < n && order@.take(n as int)[u] == k;
                    assert(order@[u] == order@[n as int]);
                }
            }
            assert(groups@[k as int] == g0[k as int]);
            let second = groups[k].remove(1);
            let mut single: Vec<T> = Vec::new();
            single.push(second);
            let ghost mid = groups@;
            groups.push(single);
            proof {
                assert(mid == before.update(k as int, mid[k as int]));
                lemma_total_len_update(group_views(before), k as int, mid[k as int]@);
                assert(group_views(mid) == group_views(before).update(k as int, mid[k as int]@));
                assert(group_views(groups@) == group_views(mid).push(single@));
                assert(group_views(groups@).drop_last() == group_views(mid));
                assert(order@.take(n + 1) == order@.take(n as int).push(k));
                assert forall|t: int| 0 <= t < n + 1 implies {
                    &&& #[trigger] groups@[order@[t] as int]@ == g0[order@[t] as int]@.remove(1)
                    &&& groups@[n0 + t]@ == seq![g0[order@[t] as int]@[1]]
                } by {
                    let o = order@[t] as int;
                    assert(o < n0);
                    if t < n {
                        assert(order@[t] != k);
                        assert(groups@[o] == mid[o]);
                        assert(mid[o] == before[o]);
                        assert(before[o]@ == g0[o]@.remove(1));
                        assert(groups@[n0 + t] == mid[n0 + t]);
                        assert(mid[n0 + t] == before[n0 + t]);
                        assert(before[n0 + t]@ == seq![g0[o]@[1]]);
                    } else {
                        assert(o == k);
                        assert(groups@[o] == mid[o]);
                        assert(mid[o]@ == before[o]@.remove(1));
                        assert(groups@[n0 + t] == single);
                        assert(single@ == seq![second]);
                    }
                }
                assert forall|j: int| 0 <= j < n0 && !order@.take(n + 1).contains(j as usize)
                    implies #[trigger] groups@[j] == g0[j] by {
                    assert(order@.take(n + 1)[n as int] == k);
                    if order@.take(n as int).contains(j as usize) {
                        let u = choose|u: int| 0 <= u < n && order@.take(n as int)[u] == j as usize;
                        assert(order@.take(n + 1)[u] == j as usize);
                    }
                    assert(j != k);
                    assert(before[j] == g0[j]);
                }
            }
            n += 1;
        }
    }
    n
}

/// The columns of an association that belong to palette color `k`, in
/// increasing order: a color's probability is the sum over these columns.
pub fn owned_columns(owner: &[usize], k: usize) -> (cols: Vec<usize>)
    ensures
        forall|t: int| 0 <= t < cols.len() ==> #[trigger] cols@[t] < owner.len() && owner@[cols@[t] as int] == k,
        forall|t1: int, t2: int| 0 <= t1 < t2 < cols.len() ==> cols@[t1] < cols@[t2],
        forall|j: int| 0 <= j < owner.len() && #[trigger] owner@[j] == k ==> cols@.contains(j as usize),
{
    let mut cols: Vec<usize> = Vec::new();
    let mut j: usize = 0;
    while j < owner.len()
        invariant
            j <= owner.len(),
            forall|t: int| 0 <= t < cols.len() ==> #[trigger] cols@[t] < j && owner@[cols@[t] as int] == k,
            forall|t1: int, t2: int| 0 <= t1 < t2 < cols.len() ==> cols@[t1] < cols@[t2],
            forall|i: int| 0 <= i < j && #[trigger] owner@[i] == k ==> cols@.contains(i as usize),
        decreases owner.len() - j,
    {
        if owner[j] == k {
            let ghost before = cols@;
            cols.push(j);
            assert forall|i: int| 0 <= i < j + 1 && #[trigger] owner@[i] == k implies cols@.contains(i as usize) by {
                if i < j {
                    let t = choose|t: int| 0 <= t < before.len() && before[t] == i as usize;
                    assert(cols@[t] == before[t]);
                } else {
                    assert(cols@[before.len() as int] == j);
                }
            }
        }
        j += 1;
    }
    cols
}

proof fn lemma_count_concat(a: Seq<usize>, b: Seq<usize>, s: int)
    ensures
        count_label(a + b, s) == count_label(a, s) + count_label(b, s),
    decreases b.len(),
{
    if b.len() > 0 {
        assert((a + b).drop_last() == a + b.drop_last());
        lemma_count_concat(a, b.drop_last(), s);
    } else {
        assert(a + b == a);
    }
}

proof fn lemma_count_repeat(n: nat, v: usize, s: int)
    ensures
        count_label(Seq::new(n, |c: int| v), s) == (if v == s { n } else { 0 }),
    decreases n,
{
    if n > 0 {
        assert(Seq::new(n, |c: int| v).drop_last() == Seq::new((n - 1) as nat, |c: int| v));
        lemma_count_repeat((n - 1) as nat, v, s);
    }
}

/// Each palette color owns exactly as many entries of the flat list as it
/// has sub-clusters, and no other entry is attributed to a color.
pub proof fn lemma_owned_entries<T>(groups: Seq<Seq<T>>, k: int)
    requires
        groups.len() <= usize::MAX,
    ensures
        count_label(owners(groups), k) == (if 0 <= k < groups.len() { groups[k].len() } else { 0 }),
    decreases groups.len(),
{
    if groups.len() > 0 {
        let init = groups.drop_last();
        let last = (groups.len() - 1) as usize;
        lemma_owned_entries(init, k);
        lemma_count_concat(owners(init), Seq::new(groups.last().len(), |c: int| last), k);
        lemma_count_repeat(groups.last().len(), last, k);
        if 0 <= k < init.len() {
            assert(init[k] == groups[k]);
        }
    }
}

/// Replace every group by the single entry `combined[k]`: once the palette
/// is full, each color keeps one cluster standing for all of its
/// sub-clusters.
pub fn collapse<T: Copy>(groups: &mut Vec<Vec<T>>, combined: &[T])
    requires
        combined@.len() == old(groups).len(),
    ensures
        final(groups).len() == old(groups).len(),
        forall|k: int| 0 <= k < final(groups).len() ==> #[trigger] final(groups)@[k]@ == seq![combined@[k]],
{
    let n = groups.len();
    let mut result: Vec<Vec<T>> = Vec::new();
    let mut k: usize = 0;
    while k < n
        invariant
            n == combined@.len(),
            k <= n,
            result.len() == k,
            forall|i: int| 0 <= i < k ==> #[trigger] result@[i]@ == seq![combined@[i]],
        decreases n - k,
    {
        let mut single: Vec<T> = Vec::new();
        single.push(combined[k]);
        result.push(single);
        k += 1;
    }
    *groups = result;
}

} // verus!
