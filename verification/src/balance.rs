//! Specification layer for partitioning items across fetch-tool instances.
//!
//! A balancing step produces, for every item, the index of the instance that
//! will fetch it.  `selected` gives the batch of one instance; the lemmas
//! show that the batches of a total assignment partition the items.

use vstd::prelude::*;
use vstd::multiset::Multiset;

verus! {

/// The items assigned to instance `b`, in their original order.
pub open spec fn selected(items: Seq<Seq<char>>, assign: Seq<usize>, b: int) -> Seq<Seq<char>>
    decreases items.len(),
{
    if items.len() == 0 || items.len() != assign.len() {
        Seq::empty()
    } else if assign.last() == b {
        selected(items.drop_last(), assign.drop_last(), b).push(items.last())
    } else {
        selected(items.drop_last(), assign.drop_last(), b)
    }
}

/// The multiset of items over the first `n` instances.
pub open spec fn selected_union(items: Seq<Seq<char>>, assign: Seq<usize>, n: int) -> Multiset<
    Seq<char>,
>
    decreases n,
{
    if n <= 0 {
        Multiset::empty()
    } else {
        selected_union(items, assign, n - 1).add(selected(items, assign, n - 1).to_multiset())
    }
}

proof fn lemma_selected_union_step(items: Seq<Seq<char>>, assign: Seq<usize>, n: int)
    requires
        items.len() == assign.len(),
        items.len() > 0,
    ensures
        selected_union(items, assign, n) == if assign.last() < n {
            selected_union(items.drop_last(), assign.drop_last(), n).insert(items.last())
        } else {
            selected_union(items.drop_last(), assign.drop_last(), n)
        },
    decreases n,
{
    broadcast use vstd::seq_lib::group_to_multiset_ensures;

    if n <= 0 {
    } else {
        lemma_selected_union_step(items, assign, n - 1);
        let sd = selected(items.drop_last(), assign.drop_last(), n - 1);
        if assign.last() == n - 1 {
            assert(selected(items, assign, n - 1) == sd.push(items.last()));
            assert(sd.push(items.last()).to_multiset() =~= sd.to_multiset().insert(items.last()));
            assert(selected_union(items, assign, n) =~= selected_union(
                items.drop_last(),
                assign.drop_last(),
                n,
            ).insert(items.last()));
        } else {
            assert(selected(items, assign, n - 1) == sd);
            if assign.last() < n - 1 {
                assert(selected_union(items, assign, n) =~= selected_union(
                    items.drop_last(),
                    assign.drop_last(),
                    n,
                ).insert(items.last()));
            } else {
                assert(selected_union(items, assign, n) =~= selected_union(
                    items.drop_last(),
                    assign.drop_last(),
                    n,
                ));
            }
        }
    }
}

/// The batches of a total assignment hold, between them, exactly the items:
/// nothing is dropped and nothing is duplicated.
pub proof fn lemma_selected_partition(items: Seq<Seq<char>>, assign: Seq<usize>, n: int)
    requires
        items.len() == assign.len(),
        forall|k: int| 0 <= k < assign.len() ==> (#[trigger] assign[k]) < n,
    ensures
        selected_union(items, assign, n) == items.to_multiset(),
    decreases items.len(),
{
    broadcast use vstd::seq_lib::group_to_multiset_ensures;

    if items.len() == 0 {
        lemma_selected_union_empty(items, assign, n);
        assert(items.to_multiset() =~= Multiset::empty());
    } else {
        lemma_selected_union_step(items, assign, n);
        assert(forall|k: int|
            0 <= k < assign.drop_last().len() ==> (#[trigger] assign.drop_last()[k]) < n);
        lemma_selected_partition(items.drop_last(), assign.drop_last(), n);
        assert(assign.last() < n);
        assert(items =~= items.drop_last().push(items.last()));
        assert(items.drop_last().push(items.last()).to_multiset() =~= items.drop_last().to_multiset().insert(
            items.last(),
        ));
    }
}

proof fn lemma_selected_union_empty(items: Seq<Seq<char>>, assign: Seq<usize>, n: int)
    requires
        items.len() == 0,
    ensures
        selected_union(items, assign, n) == Multiset::<Seq<char>>::empty(),
    decreases n,
{
    broadcast use vstd::seq_lib::group_to_multiset_ensures;
    broadcast use vstd::multiset::lemma_multiset_empty_len;

    if n > 0 {
        lemma_selected_union_empty(items, assign, n - 1);
        assert(selected(items, assign, n - 1) == Seq::<Seq<char>>::empty());
        assert(Seq::<Seq<char>>::empty().to_multiset().len() == 0);
        assert(Seq::<Seq<char>>::empty().to_multiset() =~= Multiset::<Seq<char>>::empty());
        assert(selected_union(items, assign, n) =~= Multiset::<Seq<char>>::empty());
    }
}

/// The byte size recorded for `id`, taking the first entry of `sizes` whose
/// key matches and zero when none does.
pub open spec fn spec_size_of(sizes: Seq<(Seq<char>, u64)>, id: Seq<char>) -> u64
    decreases sizes.len(),
{
    if sizes.len() == 0 {
        0u64
    } else if sizes[0].0 == id {
        sizes[0].1
    } else {
        spec_size_of(sizes.drop_first(), id)
    }
}

/// The accumulated size of a batch of item ids.
pub open spec fn batch_load(batch: Seq<Seq<char>>, sizes: Seq<(Seq<char>, u64)>) -> int
    decreases batch.len(),
{
    if batch.len() == 0 {
        0
    } else {
        batch_load(batch.drop_last(), sizes) + spec_size_of(sizes, batch.last())
    }
}

/// The largest size recorded for any of `items`.
pub open spec fn max_size_of(items: Seq<Seq<char>>, sizes: Seq<(Seq<char>, u64)>) -> int
    decreases items.len(),
{
    if items.len() == 0 {
        0
    } else {
        let rest = max_size_of(items.drop_last(), sizes);
        if spec_size_of(sizes, items.last()) > rest {
            spec_size_of(sizes, items.last()) as int
        } else {
            rest
        }
    }
}

/// `total / n` rounded upward.
pub open spec fn ceil_div(total: int, n: int) -> int {
    (total + n - 1) / n
}

/// Stable insertion of a sized item into a sequence sorted by descending
/// size: the item goes before the first strictly smaller entry.
pub open spec fn insert_desc(x: (Seq<char>, u64), s: Seq<(Seq<char>, u64)>) -> Seq<
    (Seq<char>, u64),
>
    decreases s.len(),
{
    if s.len() == 0 {
        seq![x]
    } else if x.1 > s[0].1 {
        seq![x] + s
    } else {
        seq![s[0]] + insert_desc(x, s.drop_first())
    }
}

/// Stable sort by descending size.
pub open spec fn sort_desc(s: Seq<(Seq<char>, u64)>) -> Seq<(Seq<char>, u64)>
    decreases s.len(),
{
    if s.len() == 0 {
        Seq::empty()
    } else {
        insert_desc(s.last(), sort_desc(s.drop_last()))
    }
}

/// The ids of a sequence of (id, size) pairs.
pub open spec fn firsts(s: Seq<(Seq<char>, u64)>) -> Seq<Seq<char>> {
    Seq::new(s.len(), |i: int| s[i].0)
}

/// Stable insertion rearranges nothing: the pairs are kept, one copy each.
pub proof fn lemma_insert_desc_multiset(x: (Seq<char>, u64), s: Seq<(Seq<char>, u64)>)
    ensures
        insert_desc(x, s).to_multiset() == s.to_multiset().insert(x),
        firsts(insert_desc(x, s)).to_multiset() == firsts(s).to_multiset().insert(x.0),
    decreases s.len(),
{
    broadcast use vstd::seq_lib::group_to_multiset_ensures;

    if s.len() == 0 {
        assert(insert_desc(x, s) =~= Seq::<(Seq<char>, u64)>::empty().push(x));
        assert(Seq::<(Seq<char>, u64)>::empty().push(x).to_multiset() =~= Seq::<
            (Seq<char>, u64),
        >::empty().to_multiset().insert(x));
        assert(firsts(s) =~= Seq::<Seq<char>>::empty());
        assert(firsts(insert_desc(x, s)) =~= Seq::<Seq<char>>::empty().push(x.0));
        assert(Seq::<Seq<char>>::empty().push(x.0).to_multiset() =~= Seq::<
            Seq<char>,
        >::empty().to_multiset().insert(x.0));
    } else if x.1 > s[0].1 {
        assert(insert_desc(x, s) == seq![x] + s);
        lemma_cons_multiset(x, s);
        lemma_cons_multiset_firsts(x, s);
    } else {
        let rest = insert_desc(x, s.drop_first());
        assert(insert_desc(x, s) == seq![s[0]] + rest);
        lemma_insert_desc_multiset(x, s.drop_first());
        lemma_cons_multiset(s[0], rest);
        lemma_cons_multiset(s[0], s.drop_first());
        assert(s =~= seq![s[0]] + s.drop_first());
        assert(s.to_multiset() == s.drop_first().to_multiset().insert(s[0]));
        assert(insert_desc(x, s).to_multiset() =~= s.to_multiset().insert(x));
        lemma_cons_multiset_firsts(s[0], rest);
        lemma_cons_multiset_firsts(s[0], s.drop_first());
        assert(firsts(insert_desc(x, s)).to_multiset() =~= firsts(s).to_multiset().insert(x.0));
    }
}

/// Prepending one pair inserts it into the multiset of the sequence.
proof fn lemma_cons_multiset(x: (Seq<char>, u64), s: Seq<(Seq<char>, u64)>)
    ensures
        (seq![x] + s).to_multiset() == s.to_multiset().insert(x),
    decreases s.len(),
{
    broadcast use vstd::seq_lib::group_to_multiset_ensures;

    if s.len() == 0 {
        assert(seq![x] + s =~= Seq::<(Seq<char>, u64)>::empty().push(x));
        assert((Seq::<(Seq<char>, u64)>::empty().push(x)).to_multiset() =~= Seq::<
            (Seq<char>, u64),
        >::empty().to_multiset().insert(x));
        assert(s.to_multiset() =~= Seq::<(Seq<char>, u64)>::empty().to_multiset());
    } else {
        lemma_cons_multiset(x, s.drop_last());
        assert(seq![x] + s =~= (seq![x] + s.drop_last()).push(s.last()));
        assert((seq![x] + s).to_multiset() =~= (seq![x] + s.drop_last()).to_multiset().insert(
            s.last(),
        ));
        assert(s =~= s.drop_last().push(s.last()));
        assert(s.to_multiset() =~= s.drop_last().to_multiset().insert(s.last()));
        assert(s.drop_last().to_multiset().insert(x).insert(s.last())
            =~= s.drop_last().to_multiset().insert(s.last()).insert(x));
        assert((seq![x] + s).to_multiset() =~= s.to_multiset().insert(x));
    }
}

/// The same for the projected id sequence.
proof fn lemma_cons_multiset_firsts(x: (Seq<char>, u64), s: Seq<(Seq<char>, u64)>)
    ensures
        firsts(seq![x] + s).to_multiset() == firsts(s).to_multiset().insert(x.0),
    decreases s.len(),
{
    broadcast use vstd::seq_lib::group_to_multiset_ensures;

    assert(firsts(seq![x] + s) =~= seq![x.0] + firsts(s));
    lemma_cons_multiset_ids(x.0, firsts(s));
}

proof fn lemma_cons_multiset_ids(x: Seq<char>, s: Seq<Seq<char>>)
    ensures
        (seq![x] + s).to_multiset() == s.to_multiset().insert(x),
    decreases s.len(),
{
    broadcast use vstd::seq_lib::group_to_multiset_ensures;

    if s.len() == 0 {
        assert(seq![x] + s =~= Seq::<Seq<char>>::empty().push(x));
        assert((Seq::<Seq<char>>::empty().push(x)).to_multiset() =~= Seq::<
            Seq<char>,
        >::empty().to_multiset().insert(x));
        assert(s.to_multiset() =~= Seq::<Seq<char>>::empty().to_multiset());
    } else {
        lemma_cons_multiset_ids(x, s.drop_last());
        assert(seq![x] + s =~= (seq![x] + s.drop_last()).push(s.last()));
        assert((seq![x] + s).to_multiset() =~= (seq![x] + s.drop_last()).to_multiset().insert(
            s.last(),
        ));
        assert(s =~= s.drop_last().push(s.last()));
        assert(s.to_multiset() =~= s.drop_last().to_multiset().insert(s.last()));
        assert(s.drop_last().to_multiset().insert(x).insert(s.last())
            =~= s.drop_last().to_multiset().insert(s.last()).insert(x));
        assert((seq![x] + s).to_multiset() =~= s.to_multiset().insert(x));
    }
}

/// Sorting rearranges nothing: the pairs and their ids are kept, one copy
/// each.
pub proof fn lemma_sort_desc_multiset(s: Seq<(Seq<char>, u64)>)
    ensures
        sort_desc(s).to_multiset() == s.to_multiset(),
        firsts(sort_desc(s)).to_multiset() == firsts(s).to_multiset(),
    decreases s.len(),
{
    broadcast use vstd::seq_lib::group_to_multiset_ensures;

    if s.len() == 0 {
        assert(sort_desc(s) =~= s);
        assert(firsts(sort_desc(s)) =~= firsts(s));
    } else {
        lemma_sort_desc_multiset(s.drop_last());
        lemma_insert_desc_multiset(s.last(), sort_desc(s.drop_last()));
        assert(s =~= s.drop_last().push(s.last()));
        assert(s.to_multiset() =~= s.drop_last().to_multiset().insert(s.last()));
        assert(firsts(s) =~= firsts(s.drop_last()).push(s.last().0));
        assert(firsts(s).to_multiset() =~= firsts(s.drop_last()).to_multiset().insert(s.last().0));
    }
}

/// The total load times the instance count is at least the instance count
/// times the smallest load.
pub open spec fn sum_loads(s: Seq<u64>) -> int
    decreases s.len(),
{
    if s.len() == 0 {
        0
    } else {
        sum_loads(s.drop_last()) + s.last()
    }
}

/// A lower bound shared by every load bounds the total from below.
pub proof fn lemma_sum_at_least_min(s: Seq<u64>, v: int)
    requires
        forall|j: int| 0 <= j < s.len() ==> v <= #[trigger] s[j],
        v >= 0,
    ensures
        s.len() * v <= sum_loads(s),
    decreases s.len(),
{
    if s.len() == 0 {
    } else {
        lemma_sum_at_least_min(s.drop_last(), v);
        assert(v <= s.last());
        assert((s.len() - 1) * v + v == s.len() * v) by (nonlinear_arith);
    }
}

/// Stable insertion places the item exactly at the first position whose
/// entry is strictly smaller.
pub proof fn lemma_insert_desc_at(x: (Seq<char>, u64), s: Seq<(Seq<char>, u64)>, j: int)
    requires
        0 <= j <= s.len(),
        forall|k: int| 0 <= k < j ==> (#[trigger] s[k]).1 >= x.1,
        j < s.len() ==> x.1 > s[j].1,
    ensures
        insert_desc(x, s) == s.insert(j, x),
    decreases s.len(),
{
    if s.len() == 0 {
        assert(insert_desc(x, s) =~= s.insert(0, x));
    } else if j == 0 {
        assert(insert_desc(x, s) == seq![x] + s);
        assert(seq![x] + s =~= s.insert(0, x));
    } else {
        assert(s[0].1 >= x.1);
        assert(forall|k: int| 0 <= k < j - 1 ==> (#[trigger] s.drop_first()[k]).1 >= x.1);
        lemma_insert_desc_at(x, s.drop_first(), j - 1);
        assert(insert_desc(x, s) == seq![s[0]] + s.drop_first().insert(j - 1, x));
        assert(seq![s[0]] + s.drop_first().insert(j - 1, x) =~= s.insert(j, x));
    }
}

/// The summed size field of a sequence of (id, size) pairs.
pub open spec fn sum_sizes(s: Seq<(Seq<char>, u64)>) -> int
    decreases s.len(),
{
    if s.len() == 0 {
        0
    } else {
        sum_sizes(s.drop_last()) + s.last().1
    }
}

proof fn lemma_cons_sum(x: (Seq<char>, u64), s: Seq<(Seq<char>, u64)>)
    ensures
        sum_sizes(seq![x] + s) == x.1 + sum_sizes(s),
    decreases s.len(),
{
    if s.len() == 0 {
        assert(seq![x] + s =~= seq![x]);
        assert(sum_sizes(seq![x]) == sum_sizes(seq![x].drop_last()) + x.1);
        assert(seq![x].drop_last() =~= Seq::<(Seq<char>, u64)>::empty());
    } else {
        lemma_cons_sum(x, s.drop_last());
        assert((seq![x] + s).drop_last() =~= seq![x] + s.drop_last());
        assert((seq![x] + s).last() == s.last());
    }
}

/// Stable insertion adds exactly the inserted size to the sum.
pub proof fn lemma_insert_desc_sum(x: (Seq<char>, u64), s: Seq<(Seq<char>, u64)>)
    ensures
        sum_sizes(insert_desc(x, s)) == sum_sizes(s) + x.1,
    decreases s.len(),
{
    if s.len() == 0 {
        assert(insert_desc(x, s) =~= seq![x]);
        assert(seq![x].drop_last() =~= Seq::<(Seq<char>, u64)>::empty());
        assert(sum_sizes(seq![x]) == sum_sizes(seq![x].drop_last()) + seq![x].last().1);
        assert(sum_sizes(seq![x].drop_last()) == 0);
    } else if x.1 > s[0].1 {
        lemma_cons_sum(x, s);
        assert(insert_desc(x, s) == seq![x] + s);
        assert(sum_sizes(insert_desc(x, s)) == x.1 + sum_sizes(s));
    } else {
        lemma_insert_desc_sum(x, s.drop_first());
        lemma_cons_sum(s[0], insert_desc(x, s.drop_first()));
        lemma_cons_sum(s[0], s.drop_first());
        assert(insert_desc(x, s) == seq![s[0]] + insert_desc(x, s.drop_first()));
        assert(sum_sizes(insert_desc(x, s)) == s[0].1 + sum_sizes(insert_desc(x, s.drop_first())));
        assert(sum_sizes(insert_desc(x, s.drop_first())) == sum_sizes(s.drop_first()) + x.1);
        assert(s =~= seq![s[0]] + s.drop_first());
        assert(sum_sizes(s) == s[0].1 + sum_sizes(s.drop_first()));
    }
}

/// Sorting leaves the summed size unchanged.
pub proof fn lemma_sort_desc_sum(s: Seq<(Seq<char>, u64)>)
    ensures
        sum_sizes(sort_desc(s)) == sum_sizes(s),
    decreases s.len(),
{
    if s.len() > 0 {
        lemma_sort_desc_sum(s.drop_last());
        lemma_insert_desc_sum(s.last(), sort_desc(s.drop_last()));
    }
}

/// A prefix never sums to more than the whole sequence.
pub proof fn lemma_sum_sizes_take_le(s: Seq<(Seq<char>, u64)>, j: int)
    requires
        0 <= j <= s.len(),
    ensures
        sum_sizes(s.take(j)) <= sum_sizes(s),
    decreases s.len(),
{
    if j == s.len() {
        assert(s.take(j) =~= s);
    } else {
        assert(s.take(j) =~= s.drop_last().take(j));
        lemma_sum_sizes_take_le(s.drop_last(), j);
    }
}

/// The multiset of items held across a sequence of batches.
pub open spec fn batches_union(bs: Seq<Seq<Seq<char>>>) -> Multiset<Seq<char>>
    decreases bs.len(),
{
    if bs.len() == 0 {
        Multiset::empty()
    } else {
        batches_union(bs.drop_last()).add(bs.last().to_multiset())
    }
}

/// Batches that each equal the selection of one instance union to the
/// selection union of all instances.
pub proof fn lemma_batches_union_selected(
    bs: Seq<Seq<Seq<char>>>,
    items: Seq<Seq<char>>,
    assign: Seq<usize>,
    n: int,
)
    requires
        bs.len() == n,
        forall|b: int| 0 <= b < n ==> #[trigger] bs[b] == selected(items, assign, b),
    ensures
        batches_union(bs) == selected_union(items, assign, n),
    decreases n,
{
    if n > 0 {
        assert(forall|b: int|
            0 <= b < n - 1 ==> #[trigger] bs.drop_last()[b] == selected(items, assign, b));
        lemma_batches_union_selected(bs.drop_last(), items, assign, n - 1);
        assert(bs.last() == selected(items, assign, n - 1));
    }
}

/// A bound on `n` copies of a value gives a bound on the value by division.
pub proof fn lemma_div_bound(a: int, n: int, t: int)
    requires
        n >= 1,
        a >= 0,
        n * a <= t,
    ensures
        a <= t / n,
{
    assert(a <= t / n) by (nonlinear_arith)
        requires
            n >= 1,
            a >= 0,
            n * a <= t,
    ;
}

/// A size recorded for a member of `items` is at most the largest recorded
/// size.
pub proof fn lemma_size_le_max(items: Seq<Seq<char>>, sizes: Seq<(Seq<char>, u64)>, id: Seq<char>)
    requires
        items.contains(id),
    ensures
        spec_size_of(sizes, id) <= max_size_of(items, sizes),
    decreases items.len(),
{
    if items.len() > 0 {
        if items.last() == id {
        } else {
            assert(items.drop_last().contains(id)) by {
                let k = choose|k: int| 0 <= k < items.len() && items[k] == id;
                assert(items.drop_last()[k] == id);
            }
            lemma_size_le_max(items.drop_last(), sizes, id);
        }
    }
}

} // verus!
