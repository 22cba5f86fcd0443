//! The counting behind the routing report: what share of the selections the
//! hottest experts absorb, and the per-expert totals the skew statistics are
//! computed from.
use vstd::prelude::*;
use vstd::multiset::Multiset;
use vstd::relations::{sorted_by, total_ordering};

verus! {

broadcast use vstd::multiset::group_multiset_axioms, vstd::seq_lib::group_to_multiset_ensures;

/// The sum of `s`.
pub open spec fn sum(s: Seq<u32>) -> int
    decreases s.len(),
{
    if s.len() == 0 {
        0
    } else {
        sum(s.drop_last()) + s.last()
    }
}

/// Larger first.
pub open spec fn desc() -> spec_fn(u32, u32) -> bool {
    |a: u32, b: u32| a >= b
}

/// A layer's counts, largest first.
pub open spec fn by_count(layer: Seq<u32>) -> Seq<u32> {
    layer.sort_by(desc())
}

/// The selections the `top` hottest experts of `layer` absorbed.
pub open spec fn top_sum(layer: Seq<u32>, top: nat) -> int {
    let s = by_count(layer);
    sum(if top < s.len() { s.take(top as int) } else { s })
}

pub open spec fn layer_views(layers: Seq<Vec<u32>>) -> Seq<Seq<u32>> {
    layers.map_values(|l: Vec<u32>| l@)
}

/// Over every layer: the selections the `top` hottest experts of each
/// absorbed, and all selections.
pub open spec fn coverage_spec(layers: Seq<Seq<u32>>, top: nat) -> (int, int)
    decreases layers.len(),
{
    if layers.len() == 0 {
        (0, 0)
    } else {
        let (c, t) = coverage_spec(layers.drop_last(), top);
        (c + top_sum(layers.last(), top), t + sum(layers.last()))
    }
}

/// Every selection in all the layers.
pub open spec fn selections(layers: Seq<Seq<u32>>) -> int
    decreases layers.len(),
{
    if layers.len() == 0 {
        0
    } else {
        selections(layers.drop_last()) + sum(layers.last())
    }
}

proof fn lemma_desc_total()
    ensures
        total_ordering(desc()),
{
}

proof fn lemma_sum_bound(s: Seq<u32>)
    ensures
        0 <= sum(s) <= s.len() * 0xffff_ffff,
    decreases s.len(),
{
    if s.len() > 0 {
        lemma_sum_bound(s.drop_last());
    }
}

proof fn lemma_sum_prefix(s: Seq<u32>, k: int)
    requires
        0 <= k <= s.len(),
    ensures
        sum(s.take(k)) <= sum(s),
    decreases s.len() - k,
{
    if k < s.len() {
        lemma_sum_prefix(s, k + 1);
        assert(s.take(k + 1).drop_last() =~= s.take(k));
    } else {
        assert(s.take(k) =~= s);
    }
}

proof fn lemma_total_is_selections(layers: Seq<Seq<u32>>, top: nat)
    ensures
        coverage_spec(layers, top).1 == selections(layers),
    decreases layers.len(),
{
    if layers.len() > 0 {
        lemma_total_is_selections(layers.drop_last(), top);
    }
}

proof fn lemma_selections_prefix(layers: Seq<Seq<u32>>, k: int)
    requires
        0 <= k <= layers.len(),
    ensures
        0 <= selections(layers.take(k)) <= selections(layers),
    decreases layers.len() - k,
{
    if k < layers.len() {
        lemma_selections_prefix(layers, k + 1);
        assert(layers.take(k + 1).drop_last() =~= layers.take(k));
        lemma_sum_bound(layers[k]);
        assert(layers.take(k + 1).last() == layers[k]);
        lemma_selections_nonneg(layers.take(k));
    } else {
        assert(layers.take(k) =~= layers);
        lemma_selections_nonneg(layers);
    }
}

proof fn lemma_selections_nonneg(layers: Seq<Seq<u32>>)
    ensures
        selections(layers) >= 0,
    decreases layers.len(),
{
    if layers.len() > 0 {
        lemma_selections_nonneg(layers.drop_last());
        lemma_sum_bound(layers.last());
    }
}

/// `layer`, largest count first.
pub fn sorted_desc(layer: &Vec<u32>) -> (r: Vec<u32>)
    ensures
        r@ == by_count(layer@),
{
    let mut rest: Vec<u32> = layer.clone();
    let mut out: Vec<u32> = Vec::new();
    assert(rest@ =~= layer@);
    while rest.len() > 0
        invariant
            sorted_by(out@, desc()),
            forall|i: int, k: int| 0 <= i < out@.len() && 0 <= k < rest@.len() ==> out@[i] >= rest@[k],
            out@.to_multiset().add(rest@.to_multiset()) =~= layer@.to_multiset(),
        decreases rest.len(),
    {
        let mut best: usize = 0;
        let mut i: usize = 1;
        while i < rest.len()
            invariant
                0 < rest.len(),
                best < rest.len(),
                1 <= i <= rest.len(),
                forall|k: int| 0 <= k < i ==> rest@[k] <= rest@[best as int],
            decreases rest.len() - i,
        {
            if rest[i] > rest[best] {
                best = i;
            }
            i = i + 1;
        }
        let m = rest[best];
        let ghost before_rest = rest@;
        let ghost before_out = out@;
        proof {
            assert(before_rest.remove(best as int).to_multiset() =~= before_rest.to_multiset().remove(m));
            assert(before_out.push(m).to_multiset() =~= before_out.to_multiset().insert(m));
            assert(before_rest.to_multiset().contains(m)) by {
                assert(before_rest.contains(m)) by {
                    assert(before_rest[best as int] == m);
                }
            }
        }
        rest.remove(best);
        out.push(m);
        proof {
            assert forall|i: int, j: int| 0 <= i < j < out@.len() implies #[trigger] (desc())(
                out@[i],
                out@[j],
            ) by {
                if j == out@.len() - 1 {
                    assert(out@[i] >= m);
                } else {
                    assert((desc())(before_out[i], before_out[j]));
                }
            }
            assert forall|i: int, k: int| 0 <= i < out@.len() && 0 <= k < rest@.len() implies out@[i]
                >= rest@[k] by {
                let k0 = if k < best { k } else { k + 1 };
                assert(rest@[k] == before_rest[k0]);
            }
            assert(out@.to_multiset().add(rest@.to_multiset()) =~= before_out.to_multiset().add(
                before_rest.to_multiset(),
            ));
        }
    }
    proof {
        assert(rest@.to_multiset() =~= Multiset::<u32>::empty());
        assert(out@.to_multiset() =~= layer@.to_multiset());
        layer@.lemma_sort_by_ensures(desc());
        lemma_desc_total();
        vstd::seq_lib::lemma_sorted_unique(out@, by_count(layer@), desc());
    }
    out
}

/// The sum of the first `n` of `s`.
fn sum_first(s: &Vec<u32>, n: usize) -> (r: u64)
    requires
        n <= s@.len(),
        sum(s@) <= u64::MAX,
    ensures
        r == sum(s@.take(n as int)),
{
    let mut acc: u64 = 0;
    let mut i: usize = 0;
    assert(s@.take(0) =~= Seq::<u32>::empty());
    while i < n
        invariant
            i <= n <= s@.len(),
            sum(s@) <= u64::MAX,
            acc == sum(s@.take(i as int)),
        decreases n - i,
    {
        proof {
            assert(s@.take(i + 1).drop_last() =~= s@.take(i as int));
            lemma_sum_prefix(s@, i + 1);
        }
        acc = acc + s[i] as u64;
        i = i + 1;
    }
    acc
}

/// Over every layer: the selections its `top` hottest experts absorbed, and
/// all its selections. The first over the second is the share a cache that
/// kept the `top` hottest experts of each layer resident would serve.
pub fn coverage(layers: &Vec<Vec<u32>>, top: usize) -> (r: (u64, u64))
    requires
        selections(layer_views(layers@)) <= u64::MAX,
    ensures
        r.0 == coverage_spec(layer_views(layers@), top as nat).0,
        r.1 == coverage_spec(layer_views(layers@), top as nat).1,
{
    let ghost lv = layer_views(layers@);
    let mut covered: u64 = 0;
    let mut total: u64 = 0;
    let mut l: usize = 0;
    while l < layers.len()
        invariant
            l <= layers.len(),
            lv == layer_views(layers@),
            selections(lv) <= u64::MAX,
            covered == coverage_spec(lv.take(l as int), top as nat).0,
            total == coverage_spec(lv.take(l as int), top as nat).1,
        decreases layers.len() - l,
    {
        let ghost prefix = lv.take(l + 1);
        proof {
            assert(prefix.drop_last() =~= lv.take(l as int));
            assert(prefix.last() == layers@[l as int]@);
            lemma_selections_prefix(lv, l + 1);
            lemma_total_is_selections(prefix, top as nat);
            lemma_coverage_is_a_growing_share(prefix, top as nat, top as nat);
            lemma_selections_nonneg(lv.take(l as int));
            lemma_sum_bound(layers@[l as int]@);
        }
        let layer = &layers[l];
        let sorted = sorted_desc(layer);
        proof {
            layer@.lemma_sort_by_ensures(desc());
            lemma_desc_total();
            assert(sorted@.len() == layer@.len()) by {
                assert(sorted@.to_multiset().len() == layer@.to_multiset().len());
            }
            lemma_sum_reordered(sorted@, layer@);
        }
        let n = if top < sorted.len() { top } else { sorted.len() };
        let c = sum_first(&sorted, n);
        let t = sum_first(layer, layer.len());
        proof {
            assert(sorted@.take(sorted@.len() as int) =~= sorted@);
            assert(layer@.take(layer@.len() as int) =~= layer@);
        }
        covered = covered + c;
        total = total + t;
        l = l + 1;
    }
    assert(lv.take(layers.len() as int) =~= lv);
    (covered, total)
}

/// Expert `e`'s count summed over the layers.
pub open spec fn expert_total(layers: Seq<Seq<u32>>, e: int) -> int
    decreases layers.len(),
{
    if layers.len() == 0 {
        0
    } else {
        expert_total(layers.drop_last(), e) + if 0 <= e < layers.last().len() {
            layers.last()[e] as int
        } else {
            0
        }
    }
}

/// Every layer's count for expert index `e` summed into one bin, for each of
/// the `n_expert` experts: whether an index is popular across the model.
pub fn pooled_by_expert(layers: &Vec<Vec<u32>>, n_expert: usize) -> (r: Vec<u64>)
    requires
        forall|l: int| 0 <= l < layers@.len() ==> (#[trigger] layers@[l])@.len() <= n_expert,
        forall|e: int| 0 <= e < n_expert ==> #[trigger] expert_total(layer_views(layers@), e) <= u64::MAX,
    ensures
        r@.len() == n_expert,
        forall|e: int| 0 <= e < n_expert ==> #[trigger] r@[e] == expert_total(layer_views(layers@), e),
{
    let ghost lv = layer_views(layers@);
    let mut pooled: Vec<u64> = vec![0u64; n_expert];
    let mut l: usize = 0;
    proof {
        assert forall|e: int| 0 <= e < n_expert implies #[trigger] pooled@[e] == expert_total(lv.take(0), e) by {
            assert(lv.take(0).len() == 0);
        }
    }
    while l < layers.len()
        invariant
            l <= layers.len(),
            lv == layer_views(layers@),
            forall|m: int| 0 <= m < layers@.len() ==> (#[trigger] layers@[m])@.len() <= n_expert,
            forall|e: int| 0 <= e < n_expert ==> #[trigger] expert_total(lv, e) <= u64::MAX,
            pooled@.len() == n_expert,
            forall|e: int| 0 <= e < n_expert ==> #[trigger] pooled@[e] == expert_total(lv.take(l as int), e),
        decreases layers.len() - l,
    {
        let layer = &layers[l];
        let ghost prefix = lv.take(l + 1);
        proof {
            assert(prefix.drop_last() =~= lv.take(l as int));
            assert(prefix.last() == layer@);
        }
        let ghost before = pooled@;
        assert(layer@.len() <= n_expert);
        let mut e: usize = 0;
        while e < layer.len()
            invariant
                e <= layer@.len() <= n_expert,
                pooled@.len() == n_expert,
                before.len() == n_expert,
                l < lv.len(),
                prefix == lv.take(l + 1),
                prefix.drop_last() == lv.take(l as int),
                prefix.last() == layer@,
                forall|k: int| 0 <= k < n_expert ==> #[trigger] expert_total(lv, k) <= u64::MAX,
                forall|k: int| 0 <= k < n_expert ==> before[k] == expert_total(lv.take(l as int), k),
                forall|k: int| 0 <= k < n_expert ==> #[trigger] pooled@[k] == if k < e {
                    expert_total(prefix, k)
                } else {
                    before[k] as int
                },
            decreases layer.len() - e,
        {
            proof {
                lemma_expert_total_prefix(lv, l + 1, e as int);
                assert(expert_total(lv, e as int) <= u64::MAX);
            }
            assert(expert_total(prefix, e as int) == expert_total(lv.take(l as int), e as int)
                + layer@[e as int]);
            assert(pooled@[e as int] == before[e as int]);
            pooled.set(e, pooled[e] + layer[e] as u64);
            e = e + 1;
        }
        proof {
            assert forall|k: int| 0 <= k < n_expert implies #[trigger] pooled@[k] == expert_total(prefix, k) by {
                if k >= layer@.len() {
                    assert(expert_total(prefix, k) == expert_total(lv.take(l as int), k));
                }
            }
        }
        l = l + 1;
    }
    assert(lv.take(layers.len() as int) =~= lv);
    pooled
}

proof fn lemma_expert_total_prefix(layers: Seq<Seq<u32>>, k: int, e: int)
    requires
        0 <= k <= layers.len(),
    ensures
        0 <= expert_total(layers.take(k), e) <= expert_total(layers, e),
    decreases layers.len() - k,
{
    if k < layers.len() {
        lemma_expert_total_prefix(layers, k + 1, e);
        assert(layers.take(k + 1).drop_last() =~= layers.take(k));
        assert(layers.take(k + 1).last() == layers[k]);
        lemma_expert_total_nonneg(layers.take(k), e);
    } else {
        assert(layers.take(k) =~= layers);
        lemma_expert_total_nonneg(layers, e);
    }
}

proof fn lemma_expert_total_nonneg(layers: Seq<Seq<u32>>, e: int)
    ensures
        expert_total(layers, e) >= 0,
    decreases layers.len(),
{
    if layers.len() > 0 {
        lemma_expert_total_nonneg(layers.drop_last(), e);
    }
}

proof fn lemma_sum_remove(t: Seq<u32>, i: int)
    requires
        0 <= i < t.len(),
    ensures
        sum(t) == sum(t.remove(i)) + t[i],
    decreases t.len(),
{
    if i == t.len() - 1 {
        assert(t.remove(i) =~= t.drop_last());
    } else {
        lemma_sum_remove(t.drop_last(), i);
        assert(t.remove(i).drop_last() =~= t.drop_last().remove(i));
        assert(t.remove(i).last() == t.last());
    }
}

/// Reordering counts does not change their sum.
proof fn lemma_sum_reordered(s: Seq<u32>, t: Seq<u32>)
    requires
        s.to_multiset() == t.to_multiset(),
    ensures
        sum(s) == sum(t),
    decreases s.len(),
{
    if s.len() == 0 {
        assert(t.to_multiset().len() == 0);
        assert(t.len() == 0);
    } else {
        let x = s.last();
        assert(s.drop_last().push(x) =~= s);
        assert(s.to_multiset() =~= s.drop_last().to_multiset().insert(x));
        assert(t.to_multiset().contains(x));
        assert(t.contains(x));
        let i = choose|i: int| 0 <= i < t.len() && t[i] == x;
        assert(t.remove(i).to_multiset() =~= t.to_multiset().remove(x));
        assert(s.drop_last().to_multiset() =~= s.to_multiset().remove(x));
        lemma_sum_reordered(s.drop_last(), t.remove(i));
        lemma_sum_remove(t, i);
    }
}

proof fn lemma_top_sum_bounds(layer: Seq<u32>, a: nat, b: nat)
    requires
        a <= b,
    ensures
        top_sum(layer, a) <= top_sum(layer, b),
        top_sum(layer, b) <= sum(layer),
{
    let s = by_count(layer);
    layer.lemma_sort_by_ensures(desc());
    lemma_desc_total();
    lemma_sum_reordered(s, layer);
    let sb = if b < s.len() { s.take(b as int) } else { s };
    let sa = if a < s.len() { s.take(a as int) } else { s };
    if b < s.len() {
        lemma_sum_prefix(s, b as int);
    }
    if a < s.len() {
        lemma_sum_prefix(sb, a as int);
        assert(sb.take(a as int) =~= sa);
    } else {
        assert(sa == sb);
    }
}

/// The hottest experts never absorb more than every selection, and keeping
/// more of them never covers less: the share is a share, and it grows with
/// the number kept.
pub proof fn lemma_coverage_is_a_growing_share(layers: Seq<Seq<u32>>, a: nat, b: nat)
    requires
        a <= b,
    ensures
        coverage_spec(layers, b).0 <= coverage_spec(layers, b).1,
        coverage_spec(layers, a).0 <= coverage_spec(layers, b).0,
        coverage_spec(layers, a).1 == coverage_spec(layers, b).1,
    decreases layers.len(),
{
    if layers.len() > 0 {
        lemma_coverage_is_a_growing_share(layers.drop_last(), a, b);
        lemma_top_sum_bounds(layers.last(), a, b);
    }
}

} // verus!
