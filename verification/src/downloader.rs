//! The fetch-tool side of the pipeline: the downloader's bookkeeping of
//! items currently in flight, the partitioning of requested item ids across
//! parallel fetch-tool instances, and the batch script handed to one
//! instance.
//!
//! Partitioning either distributes ids round-robin or, when byte sizes are
//! known, greedily assigns each id (largest first) to the instance with the
//! least accumulated size.  The greedy assignment carries the classic bound:
//! no instance accumulates more than the total divided by the instance
//! count, rounded up, plus one largest item.

use vstd::prelude::*;
use crate::balance::{
    batch_load, ceil_div, insert_desc, max_size_of, selected, sort_desc, spec_size_of, sum_loads,
    sum_sizes,
};
use crate::strings::str_eq;

verus! {

/// A confirmed, non-empty fetch result on disk.
pub struct DownloadedMod {
    pub mod_id: String,
    pub mod_path: String,
    pub folder: Option<String>,
}

/// State of the fetch side: where the fetch tool lives, where fetched items
/// appear, and which item ids are currently being fetched.
pub struct Downloader {
    steamcmd_path: String,
    download_path: String,
    active_downloads: Vec<String>,
}

impl Downloader {
    pub closed spec fn steamcmd_dir(&self) -> Seq<char> {
        self.steamcmd_path@
    }

    pub closed spec fn download_dir(&self) -> Seq<char> {
        self.download_path@
    }

    /// The ids currently marked as downloading.
    pub closed spec fn active(&self) -> Seq<Seq<char>> {
        self.active_downloads.deep_view()
    }

    /// No id is marked twice.
    pub open spec fn wf(&self) -> bool {
        forall|i: int, j: int|
            0 <= i < j < self.active().len() ==> #[trigger] self.active()[i] != #[trigger] self.active()[j]
    }

    /// Create a downloader rooted at `steamcmd_path` (or at the default
    /// fetch-tool directory), with no download in flight.  Fetched items
    /// appear under the tool's workshop content directory.
    pub fn new(steamcmd_path: Option<String>) -> (r: Downloader)
        ensures
            r.wf(),
            r.active().len() == 0,
            r.steamcmd_dir() == match steamcmd_path {
                Some(p) => p@,
                None => "steamcmd"@,
            },
            r.download_dir() == r.steamcmd_dir() + "/steamapps/workshop/content/294100"@,
    {
        let base = match steamcmd_path {
            Some(p) => p,
            None => String::from_str("steamcmd"),
        };
        let mut download_path = base.clone();
        download_path.append("/steamapps/workshop/content/294100");
        Downloader { steamcmd_path: base, download_path, active_downloads: Vec::new() }
    }

    /// The directory fetched items are placed in.
    pub fn download_path(&self) -> (r: &String)
        ensures
            r@ == self.download_dir(),
    {
        &self.download_path
    }

    /// The directory the fetch tool runs in.
    pub fn steamcmd_path(&self) -> (r: &String)
        ensures
            r@ == self.steamcmd_dir(),
    {
        &self.steamcmd_path
    }

    /// Whether `mod_id` is currently marked as downloading.
    pub fn is_downloading(&self, mod_id: &str) -> (r: bool)
        ensures
            r == self.active().contains(mod_id@),
    {
        let n = self.active_downloads.len();
        let mut i: usize = 0;
        while i < n
            invariant
                n == self.active().len(),
                n == self.active_downloads@.len(),
                i <= n,
                forall|j: int| 0 <= j < i ==> #[trigger] self.active()[j] != mod_id@,
            decreases n - i,
        {
            if str_eq(self.active_downloads[i].as_str(), mod_id) {
                proof {
                    assert(self.active()[i as int] == mod_id@);
                }
                return true;
            }
            i = i + 1;
        }
        proof {
            assert forall|j: int| 0 <= j < self.active().len() implies #[trigger] self.active()[j]
                != mod_id@ by {}
        }
        false
    }

    /// Mark `mod_id` as downloading.  Afterwards it is marked; ids already
    /// marked stay marked, and nothing else is added.
    pub fn mark_downloading(&mut self, mod_id: String)
        requires
            old(self).wf(),
        ensures
            final(self).wf(),
            final(self).steamcmd_dir() == old(self).steamcmd_dir(),
            final(self).download_dir() == old(self).download_dir(),
            final(self).active() == if old(self).active().contains(mod_id@) {
                old(self).active()
            } else {
                old(self).active().push(mod_id@)
            },
    {
        if self.is_downloading(mod_id.as_str()) {
            return ;
        }
        let ghost idv = mod_id@;
        self.active_downloads.push(mod_id);
        proof {
            assert(self.active() =~= old(self).active().push(idv));
            assert forall|i: int, j: int|
                0 <= i < j < self.active().len() implies #[trigger] self.active()[i]
                != #[trigger] self.active()[j] by {
                if j == self.active().len() - 1 {
                    assert(!old(self).active().contains(idv));
                    assert(old(self).active()[i] != idv);
                }
            }
        }
    }

    /// Mark `mod_id` as no longer downloading.  Afterwards it is not marked;
    /// every other id keeps its mark.
    pub fn mark_downloaded(&mut self, mod_id: &str)
        requires
            old(self).wf(),
        ensures
            final(self).wf(),
            final(self).steamcmd_dir() == old(self).steamcmd_dir(),
            final(self).download_dir() == old(self).download_dir(),
            !final(self).active().contains(mod_id@),
            if old(self).active().contains(mod_id@) {
                exists|i: int|
                    0 <= i < old(self).active().len() && old(self).active()[i] == mod_id@
                        && final(self).active() == old(self).active().remove(i)
            } else {
                final(self).active() == old(self).active()
            },
    {
        let n = self.active_downloads.len();
        let mut i: usize = 0;
        while i < n
            invariant
                old(self).wf(),
                *self == *old(self),
                n == self.active().len(),
                n == self.active_downloads@.len(),
                i <= n,
                forall|j: int| 0 <= j < i ==> #[trigger] self.active()[j] != mod_id@,
            decreases n - i,
        {
            if str_eq(self.active_downloads[i].as_str(), mod_id) {
                proof {
                    assert(self.active()[i as int] == mod_id@);
                }
                self.active_downloads.remove(i);
                proof {
                    old(self).active_downloads@.remove_ensures(i as int);
                    assert(self.active() =~= old(self).active().remove(i as int));
                    assert forall|j: int|
                        0 <= j < self.active().len() implies #[trigger] self.active()[j]
                        != mod_id@ by {
                        if j < i {
                            assert(self.active()[j] == old(self).active()[j]);
                        } else {
                            assert(self.active()[j] == old(self).active()[j + 1]);
                        }
                    }
                    assert forall|a: int, b: int|
                        0 <= a < b < self.active().len() implies #[trigger] self.active()[a]
                        != #[trigger] self.active()[b] by {
                        let oa: int = if a < i { a } else { a + 1 };
                        let ob: int = if b < i { b } else { b + 1 };
                        assert(self.active()[a] == old(self).active()[oa]);
                        assert(self.active()[b] == old(self).active()[ob]);
                    }
                }
                return ;
            }
            i = i + 1;
        }
        proof {
            assert forall|j: int| 0 <= j < self.active().len() implies #[trigger] self.active()[j]
                != mod_id@ by {}
        }
    }
}

/// The round-robin assignment: the item at position `k` goes to instance
/// `k` modulo the instance count.
pub open spec fn rr_assign(len: nat, n: int) -> Seq<usize> {
    Seq::new(len, |k: int| (k % n) as usize)
}

impl Downloader {
    /// Partition `mod_ids` round-robin over `num_instances` batches: batch
    /// `b` holds, in order, exactly the ids at positions congruent to `b`,
    /// and the batches together hold every id exactly once.
    pub fn balance_mods_round_robin(mod_ids: &Vec<String>, num_instances: usize) -> (r: Vec<
        Vec<String>,
    >)
        requires
            num_instances >= 1,
        ensures
            r@.len() == num_instances,
            forall|b: int|
                0 <= b < num_instances ==> #[trigger] r.deep_view()[b] == selected(
                    mod_ids.deep_view(),
                    rr_assign(mod_ids@.len(), num_instances as int),
                    b,
                ),
            crate::balance::batches_union(r.deep_view()) == mod_ids.deep_view().to_multiset(),
    {
        let len = mod_ids.len();
        let mut assign: Vec<usize> = Vec::new();
        let mut k: usize = 0;
        while k < len
            invariant
                num_instances >= 1,
                k <= len,
                assign@.len() == k,
                forall|i: int| 0 <= i < k ==> #[trigger] assign@[i] == (i % (num_instances as int)) as usize,
            decreases len - k,
        {
            assign.push(k % num_instances);
            k = k + 1;
        }
        proof {
            assert(assign@ =~= rr_assign(mod_ids@.len(), num_instances as int));
            assert(forall|i: int|
                0 <= i < assign@.len() ==> (#[trigger] assign@[i]) < num_instances);
        }
        let r = build_batches(mod_ids, &assign, num_instances);
        proof {
            crate::balance::lemma_selected_partition(
                mod_ids.deep_view(),
                assign@,
                num_instances as int,
            );
            crate::balance::lemma_batches_union_selected(
                r.deep_view(),
                mod_ids.deep_view(),
                assign@,
                num_instances as int,
            );
        }
        r
    }

    /// Partition `mod_ids` by greedy size balancing: ids are taken largest
    /// first and each goes to the instance with the least accumulated size.
    /// The batches together hold every id exactly once, and no batch
    /// accumulates more than the total size divided by the instance count,
    /// rounded up, plus the largest single size.
    pub fn balance_mods_by_size(
        mod_ids: &Vec<String>,
        mod_sizes: &Vec<(String, u64)>,
        num_instances: usize,
    ) -> (r: Vec<Vec<String>>)
        requires
            num_instances >= 1,
            batch_load(mod_ids.deep_view(), mod_sizes.deep_view()) <= u64::MAX,
        ensures
            r@.len() == num_instances,
            crate::balance::batches_union(r.deep_view()) == mod_ids.deep_view().to_multiset(),
            forall|b: int|
                0 <= b < num_instances ==> batch_load(
                    #[trigger] r.deep_view()[b],
                    mod_sizes.deep_view(),
                ) <= ceil_div(
                    batch_load(mod_ids.deep_view(), mod_sizes.deep_view()),
                    num_instances as int,
                ) + max_size_of(mod_ids.deep_view(), mod_sizes.deep_view()),
    {
        let ghost idsv = mod_ids.deep_view();
        let ghost sizesv = mod_sizes.deep_view();
        let ghost total = batch_load(idsv, sizesv);
        let ghost maxsz = max_size_of(idsv, sizesv);
        let n = num_instances;
        let len = mod_ids.len();

        // Pair every id with its recorded size.
        let mut paired: Vec<(String, u64)> = Vec::new();
        let mut k: usize = 0;
        proof {
            assert(idsv.take(0) =~= Seq::<Seq<char>>::empty());
        }
        while k < len
            invariant
                len == mod_ids@.len(),
                idsv == mod_ids.deep_view(),
                sizesv == mod_sizes.deep_view(),
                k <= len,
                paired@.len() == k,
                forall|i: int|
                    0 <= i < k ==> #[trigger] paired.deep_view()[i] == (
                    idsv[i],
                    spec_size_of(sizesv, idsv[i]),
                ),
                sum_sizes(paired.deep_view()) == batch_load(idsv.take(k as int), sizesv),
            decreases len - k,
        {
            let ghost prev = paired.deep_view();
            let size = lookup_size(mod_sizes, mod_ids[k].as_str());
            paired.push((mod_ids[k].clone(), size));
            proof {
                assert(paired.deep_view() =~= prev.push((idsv[k as int], size)));
                assert(paired.deep_view().drop_last() =~= prev);
                assert(idsv.take(k + 1).drop_last() =~= idsv.take(k as int));
                assert(idsv.take(k + 1).last() == idsv[k as int]);
            }
            k = k + 1;
        }
        proof {
            assert(idsv.take(len as int) =~= idsv);
            assert(crate::balance::firsts(paired.deep_view()) =~= idsv);
        }
        let ghost pairedv = paired.deep_view();

        // Sort the pairs by size, largest first.
        let sorted = sort_pairs_desc(paired);
        let ghost sv = sorted.deep_view();
        proof {
            crate::balance::lemma_sort_desc_multiset(pairedv);
            crate::balance::lemma_sort_desc_sum(pairedv);
            broadcast use vstd::seq_lib::group_to_multiset_ensures;

            assert(sum_sizes(sv) == total);
            assert(crate::balance::firsts(sv).to_multiset() == idsv.to_multiset());
            assert forall|i: int| 0 <= i < sv.len() implies (#[trigger] sv[i]).1 == spec_size_of(
                sizesv,
                sv[i].0,
            ) && spec_size_of(sizesv, sv[i].0) <= maxsz by {
                assert(sv.contains(sv[i]));
                assert(sv.to_multiset().count(sv[i]) > 0);
                assert(pairedv.to_multiset().count(sv[i]) > 0);
                assert(pairedv.contains(sv[i]));
                let j = choose|j: int| 0 <= j < pairedv.len() && pairedv[j] == sv[i];
                assert(pairedv[j] == (idsv[j], spec_size_of(sizesv, idsv[j])));
                assert(idsv.contains(sv[i].0)) by {
                    assert(idsv[j] == sv[i].0);
                }
                crate::balance::lemma_size_le_max(idsv, sizesv, sv[i].0);
            }
        }

        // Greedy assignment to the least-loaded instance.
        let mut loads: Vec<u64> = Vec::new();
        let mut b: usize = 0;
        while b < n
            invariant
                b <= n,
                loads@.len() == b,
                forall|c: int| 0 <= c < b ==> #[trigger] loads@[c] == 0u64,
                sum_loads(loads@) == 0,
            decreases n - b,
        {
            let ghost prevl = loads@;
            loads.push(0);
            proof {
                assert(loads@.drop_last() =~= prevl);
                assert(loads@.last() == 0u64);
            }
            b = b + 1;
        }
        let ghost bound = ceil_div(total, n as int) + maxsz;
        let mut assign: Vec<usize> = Vec::new();
        let slen = sorted.len();
        let mut i: usize = 0;
        proof {
            assert(sv.take(0) =~= Seq::<(Seq<char>, u64)>::empty());
            assert(crate::balance::firsts(sv.take(0)) =~= Seq::<Seq<char>>::empty());
            assert(assign@.take(0) =~= Seq::<usize>::empty());
            assert forall|c: int| 0 <= c < n implies #[trigger] loads@[c] == batch_load(
                selected(crate::balance::firsts(sv).take(0), assign@.take(0), c),
                sizesv,
            ) by {
                assert(crate::balance::firsts(sv).take(0) =~= Seq::<Seq<char>>::empty());
            }
            crate::balance::lemma_sum_sizes_take_le(sv, 0);
            assert(total >= 0) by {
                lemma_batch_load_nonneg(idsv, sizesv);
            }
            assert(maxsz >= 0) by {
                lemma_max_size_nonneg(idsv, sizesv);
            }
        }
        while i < slen
            invariant
                n >= 1,
                slen == sorted@.len(),
                sv == sorted.deep_view(),
                sizesv == mod_sizes.deep_view(),
                total >= 0,
                maxsz >= 0,
                total <= u64::MAX,
                bound == ceil_div(total, n as int) + maxsz,
                sum_sizes(sv) == total,
                forall|t: int| 0 <= t < sv.len() ==> (#[trigger] sv[t]).1 == spec_size_of(
                    sizesv,
                    sv[t].0,
                ) && spec_size_of(sizesv, sv[t].0) <= maxsz,
                i <= slen,
                loads@.len() == n,
                assign@.len() == i,
                forall|t: int| 0 <= t < i ==> (#[trigger] assign@[t]) < n,
                sum_loads(loads@) == sum_sizes(sv.take(i as int)),
                forall|c: int| 0 <= c < n ==> #[trigger] loads@[c] as int == batch_load(
                    selected(
                        crate::balance::firsts(sv).take(i as int),
                        assign@.take(i as int),
                        c,
                    ),
                    sizesv,
                ),
                forall|c: int| 0 <= c < n ==> (#[trigger] loads@[c]) as int <= bound,
            decreases slen - i,
        {
            // Find the least-loaded instance (first of equal minima).
            let mut m: usize = 0;
            let mut j: usize = 1;
            while j < n
                invariant
                    n >= 1,
                    loads@.len() == n,
                    m < j,
                    j <= n,
                    forall|t: int| 0 <= t < j ==> loads@[m as int] <= #[trigger] loads@[t],
                decreases n - j,
            {
                if loads[j] < loads[m] {
                    m = j;
                }
                j = j + 1;
            }
            let size = sorted[i].1;
            let ghost id = sv[i as int].0;
            proof {
                assert(sv[i as int] == (sorted@[i as int].0@, sorted@[i as int].1));
                assert(size == sv[i as int].1);
                crate::balance::lemma_sum_at_least_min(loads@, loads@[m as int] as int);
                assert((n as int) * (loads@[m as int] as int) <= sum_loads(loads@));
                assert((loads@[m as int] as int) <= sum_loads(loads@)) by (nonlinear_arith)
                    requires
                        n >= 1,
                        (n as int) * (loads@[m as int] as int) <= sum_loads(loads@),
                        loads@[m as int] >= 0,
                ;
                crate::balance::lemma_sum_sizes_take_le(sv, i as int);
                assert(sum_loads(loads@) <= total);
                crate::balance::lemma_div_bound(
                    loads@[m as int] as int,
                    n as int,
                    total,
                );
                assert(loads@[m as int] as int <= total / (n as int));
                assert(total / (n as int) <= ceil_div(total, n as int)) by {
                    vstd::arithmetic::div_mod::lemma_div_is_ordered(
                        total,
                        total + n - 1,
                        n as int,
                    );
                }
                assert(sv.take(i + 1).drop_last() =~= sv.take(i as int));
                assert(sv.take(i + 1).last() == sv[i as int]);
                assert(sum_sizes(sv.take(i + 1)) == sum_sizes(sv.take(i as int)) + size);
                crate::balance::lemma_sum_sizes_take_le(sv, i + 1);
                assert(loads@[m as int] + size <= u64::MAX);
            }
            let ghost oldloads = loads@;
            let ghost oldassign = assign@;
            loads[m] = loads[m] + size;
            assign.push(m);
            proof {
                assert(loads@ =~= oldloads.update(m as int, (oldloads[m as int] + size) as u64));
                assert(assign@ =~= oldassign.push(m));
                assert(assign@.take(i + 1) =~= assign@);
                assert(oldassign =~= assign@.take(i as int));
                lemma_sum_loads_update(oldloads, m as int, size);
                let fs = crate::balance::firsts(sv);
                assert(fs.take(i + 1).drop_last() =~= fs.take(i as int));
                assert(fs.take(i + 1).last() == id);
                assert(assign@.take(i + 1).drop_last() =~= assign@.take(i as int));
                assert forall|c: int| 0 <= c < n implies #[trigger] loads@[c] as int == batch_load(
                    selected(fs.take(i + 1), assign@.take(i + 1), c),
                    sizesv,
                ) by {
                    assert(oldloads[c] as int == batch_load(
                        selected(fs.take(i as int), oldassign.take(i as int), c),
                        sizesv,
                    ));
                    assert(oldassign.take(i as int) =~= assign@.take(i as int));
                    if c == m {
                        assert(loads@[c] == (oldloads[c] + size) as u64);
                        assert(selected(fs.take(i + 1), assign@.take(i + 1), c) == selected(
                            fs.take(i as int),
                            assign@.take(i as int),
                            c,
                        ).push(id));
                        assert(batch_load(
                            selected(fs.take(i as int), assign@.take(i as int), c).push(id),
                            sizesv,
                        ) == batch_load(
                            selected(fs.take(i as int), assign@.take(i as int), c),
                            sizesv,
                        ) + spec_size_of(sizesv, id)) by {
                            let sq = selected(
                                fs.take(i as int),
                                assign@.take(i as int),
                                c,
                            ).push(id);
                            assert(sq.drop_last() =~= selected(
                                fs.take(i as int),
                                assign@.take(i as int),
                                c,
                            ));
                        }
                    } else {
                        assert(loads@[c] == oldloads[c]);
                        assert(selected(fs.take(i + 1), assign@.take(i + 1), c) == selected(
                            fs.take(i as int),
                            assign@.take(i as int),
                            c,
                        ));
                    }
                }
                assert forall|c: int| 0 <= c < n implies (#[trigger] loads@[c]) as int
                    <= bound by {
                    assert(oldloads[c] as int <= bound);
                    if c == m {
                        assert(loads@[c] == (oldloads[c] + size) as u64);
                        assert(oldloads[m as int] as int + size <= ceil_div(total, n as int)
                            + maxsz);
                    } else {
                        assert(loads@[c] == oldloads[c]);
                    }
                }
            }
            i = i + 1;
        }
        proof {
            assert(sv.take(slen as int) =~= sv);
            assert(assign@.take(slen as int) =~= assign@);
            assert(crate::balance::firsts(sv).take(slen as int) =~= crate::balance::firsts(sv));
        }

        // Lay the assignment out as one batch per instance.
        let mut sorted_ids: Vec<String> = Vec::new();
        let mut t: usize = 0;
        while t < slen
            invariant
                slen == sorted@.len(),
                sv == sorted.deep_view(),
                t <= slen,
                sorted_ids@.len() == t,
                forall|u: int|
                    0 <= u < t ==> #[trigger] sorted_ids.deep_view()[u] == sv[u].0,
            decreases slen - t,
        {
            let ghost prevs = sorted_ids.deep_view();
            sorted_ids.push(sorted[t].0.clone());
            proof {
                assert(sv[t as int] == (sorted@[t as int].0@, sorted@[t as int].1));
                assert(sorted_ids.deep_view() =~= prevs.push(sv[t as int].0));
            }
            t = t + 1;
        }
        proof {
            assert(sorted_ids.deep_view() =~= crate::balance::firsts(sv));
        }
        let r = build_batches(&sorted_ids, &assign, n);
        proof {
            let fs = crate::balance::firsts(sv);
            crate::balance::lemma_selected_partition(fs, assign@, n as int);
            crate::balance::lemma_batches_union_selected(r.deep_view(), fs, assign@, n as int);
            assert forall|c: int| 0 <= c < n implies batch_load(
                #[trigger] r.deep_view()[c],
                sizesv,
            ) <= ceil_div(total, n as int) + maxsz by {
                assert(loads@[c] as int <= bound);
                assert(loads@[c] as int == batch_load(
                    selected(fs.take(slen as int), assign@.take(slen as int), c),
                    sizesv,
                ));
                assert(r.deep_view()[c] == selected(fs, assign@, c));
            }
        }
        r
    }
}

/// The size recorded for `id` in `sizes`, zero when none is.
fn lookup_size(sizes: &Vec<(String, u64)>, id: &str) -> (r: u64)
    ensures
        r == spec_size_of(sizes.deep_view(), id@),
{
    let n = sizes.len();
    let mut i: usize = 0;
    proof {
        assert(sizes.deep_view().skip(0) =~= sizes.deep_view());
    }
    while i < n
        invariant
            n == sizes@.len(),
            i <= n,
            spec_size_of(sizes.deep_view(), id@) == spec_size_of(
                sizes.deep_view().skip(i as int),
                id@,
            ),
        decreases n - i,
    {
        let ghost sk = sizes.deep_view().skip(i as int);
        proof {
            assert(sk[0] == sizes.deep_view()[i as int]);
        }
        if str_eq(sizes[i].0.as_str(), id) {
            proof {
                assert(sk[0].0 == id@);
            }
            return sizes[i].1;
        }
        proof {
            assert(sk[0].0 != id@);
            assert(sk.drop_first() =~= sizes.deep_view().skip(i + 1));
        }
        i = i + 1;
    }
    proof {
        assert(sizes.deep_view().skip(n as int) =~= Seq::<(Seq<char>, u64)>::empty());
    }
    0
}

/// Sort (id, size) pairs by size, largest first, keeping the original order
/// of pairs of equal size.
fn sort_pairs_desc(items: Vec<(String, u64)>) -> (r: Vec<(String, u64)>)
    ensures
        r.deep_view() == sort_desc(items.deep_view()),
{
    let ghost itemsv = items.deep_view();
    let len = items.len();
    let mut r: Vec<(String, u64)> = Vec::new();
    let mut i: usize = 0;
    proof {
        assert(itemsv.take(0) =~= Seq::<(Seq<char>, u64)>::empty());
    }
    while i < len
        invariant
            len == items@.len(),
            itemsv == items.deep_view(),
            i <= len,
            r.deep_view() == sort_desc(itemsv.take(i as int)),
        decreases len - i,
    {
        let x = (items[i].0.clone(), items[i].1);
        let ghost xv = itemsv[i as int];
        proof {
            assert(itemsv[i as int] == (items@[i as int].0@, items@[i as int].1));
            assert(x.deep_view() == xv);
            assert(x.1 == xv.1);
        }
        let ghost before = r.deep_view();
        // Find the first position whose entry is strictly smaller.
        let rlen = r.len();
        let mut j: usize = 0;
        while j < rlen
            invariant_except_break
                rlen == r@.len(),
                before == r.deep_view(),
                x.1 == xv.1,
                j <= rlen,
                forall|k: int| 0 <= k < j ==> (#[trigger] before[k]).1 >= xv.1,
            ensures
                j <= rlen,
                forall|k: int| 0 <= k < j ==> (#[trigger] before[k]).1 >= xv.1,
                j < rlen ==> xv.1 > before[j as int].1,
            decreases rlen - j,
        {
            proof {
                assert(before[j as int] == (r@[j as int].0@, r@[j as int].1));
            }
            if x.1 > r[j].1 {
                proof {
                    assert(xv.1 > before[j as int].1);
                }
                break ;
            }
            proof {
                assert(before[j as int].1 >= xv.1);
            }
            j = j + 1;
        }
        let ghost xdeep = x.deep_view();
        r.insert(j, x);
        proof {
            crate::balance::lemma_insert_desc_at(xv, before, j as int);
            assert(r.deep_view() =~= before.insert(j as int, xv));
            assert(itemsv.take(i + 1).drop_last() =~= itemsv.take(i as int));
            assert(itemsv.take(i + 1).last() == itemsv[i as int]);
            assert(r.deep_view() == insert_desc(itemsv[i as int], sort_desc(itemsv.take(i as int))));
        }
        i = i + 1;
    }
    proof {
        assert(itemsv.take(len as int) =~= itemsv);
    }
    r
}

proof fn lemma_batch_load_nonneg(batch: Seq<Seq<char>>, sizes: Seq<(Seq<char>, u64)>)
    ensures
        batch_load(batch, sizes) >= 0,
    decreases batch.len(),
{
    if batch.len() > 0 {
        lemma_batch_load_nonneg(batch.drop_last(), sizes);
    }
}

proof fn lemma_max_size_nonneg(items: Seq<Seq<char>>, sizes: Seq<(Seq<char>, u64)>)
    ensures
        max_size_of(items, sizes) >= 0,
    decreases items.len(),
{
    if items.len() > 0 {
        lemma_max_size_nonneg(items.drop_last(), sizes);
    }
}

proof fn lemma_sum_loads_update(s: Seq<u64>, m: int, add: u64)
    requires
        0 <= m < s.len(),
        s[m] + add <= u64::MAX,
    ensures
        sum_loads(s.update(m, (s[m] + add) as u64)) == sum_loads(s) + add,
    decreases s.len(),
{
    let su = s.update(m, (s[m] + add) as u64);
    if m == s.len() - 1 {
        assert(su.drop_last() =~= s.drop_last());
        assert(su.last() == (s[m] + add) as u64);
    } else {
        assert(su.drop_last() =~= s.drop_last().update(m, (s[m] + add) as u64));
        lemma_sum_loads_update(s.drop_last(), m, add);
        assert(su.last() == s.last());
    }
}

/// The lines of the script handed to one fetch-tool instance: the install
/// directory and login preamble, one fetch command per item, and the quit
/// command.
pub open spec fn spec_script_lines(install_dir: Seq<char>, ids: Seq<Seq<char>>) -> Seq<Seq<char>> {
    seq!["force_install_dir \""@ + install_dir + "\""@, "login anonymous"@] + Seq::new(
        ids.len(),
        |i: int| "workshop_download_item 294100 "@ + ids[i],
    ) + seq!["quit"@]
}

impl Downloader {
    /// The batch script for one instance, line by line.
    pub fn build_batch_script(install_dir: &str, mod_ids: &Vec<String>) -> (r: Vec<String>)
        ensures
            r.deep_view() == spec_script_lines(install_dir@, mod_ids.deep_view()),
    {
        let ghost idsv = mod_ids.deep_view();
        let mut r: Vec<String> = Vec::new();
        let mut first = String::from_str("force_install_dir \"");
        first.append(install_dir);
        first.append("\"");
        r.push(first);
        r.push(String::from_str("login anonymous"));
        let n = mod_ids.len();
        let mut i: usize = 0;
        while i < n
            invariant
                n == mod_ids@.len(),
                idsv == mod_ids.deep_view(),
                i <= n,
                r@.len() == i + 2,
                r.deep_view()[0] == "force_install_dir \""@ + install_dir@ + "\""@,
                r.deep_view()[1] == "login anonymous"@,
                forall|j: int|
                    0 <= j < i ==> #[trigger] r.deep_view()[j + 2]
                        == "workshop_download_item 294100 "@ + idsv[j],
            decreases n - i,
        {
            let mut line = String::from_str("workshop_download_item 294100 ");
            line.append(mod_ids[i].as_str());
            let ghost prev = r.deep_view();
            let ghost linev = line@;
            r.push(line);
            proof {
                assert(linev == "workshop_download_item 294100 "@ + idsv[i as int]);
                assert(r.deep_view() =~= prev.push(linev));
            }
            i = i + 1;
        }
        let ghost prev = r.deep_view();
        r.push(String::from_str("quit"));
        proof {
            assert(r.deep_view() =~= prev.push("quit"@));
            assert forall|j: int|
                0 <= j < r.deep_view().len() implies #[trigger] r.deep_view()[j]
                == spec_script_lines(install_dir@, idsv)[j] by {
                let sp = spec_script_lines(install_dir@, idsv);
                if j == 0 {
                    assert(sp[0] == "force_install_dir \""@ + install_dir@ + "\""@);
                } else if j == 1 {
                    assert(sp[1] == "login anonymous"@);
                } else if j < n + 2 {
                    assert(sp[j] == "workshop_download_item 294100 "@ + idsv[j - 2]);
                    assert(r.deep_view()[(j - 2) + 2] == "workshop_download_item 294100 "@
                        + idsv[j - 2]);
                } else {
                    assert(sp[j] == "quit"@);
                }
            }
            assert(r.deep_view() =~= spec_script_lines(install_dir@, idsv));
        }
        r
    }

    /// The places the fetch tool may live, in the order they are probed:
    /// beside the running executable and under its resource directories
    /// (under the platform-suffixed name), then the bundled tool
    /// directory, then the configured tool directory (under the plain
    /// executable name).  What follows them is the system search path.
    pub fn steamcmd_candidate_paths(
        exe_dir: &str,
        steamcmd_path: &str,
        exe_name: &str,
        suffixed_name: &str,
    ) -> (r: Vec<String>)
        ensures
            r.deep_view() == seq![
                crate::paths::spec_join(exe_dir@, suffixed_name@),
                crate::paths::spec_join(
                    crate::paths::spec_join(exe_dir@, "resources"@),
                    suffixed_name@,
                ),
                crate::paths::spec_join(crate::paths::spec_join(exe_dir@, ".."@), suffixed_name@),
                crate::paths::spec_join(
                    crate::paths::spec_join(
                        crate::paths::spec_join(exe_dir@, ".."@),
                        "resources"@,
                    ),
                    suffixed_name@,
                ),
                crate::paths::spec_join("bin/steamcmd"@, exe_name@),
                crate::paths::spec_join(steamcmd_path@, exe_name@),
            ],
    {
        let mut r: Vec<String> = Vec::new();
        let resources = crate::paths::path_join(exe_dir, "resources");
        let parent = crate::paths::path_join(exe_dir, "..");
        let parent_resources = crate::paths::path_join(parent.as_str(), "resources");
        r.push(crate::paths::path_join(exe_dir, suffixed_name));
        r.push(crate::paths::path_join(resources.as_str(), suffixed_name));
        r.push(crate::paths::path_join(parent.as_str(), suffixed_name));
        r.push(crate::paths::path_join(parent_resources.as_str(), suffixed_name));
        r.push(crate::paths::path_join("bin/steamcmd", exe_name));
        r.push(crate::paths::path_join(steamcmd_path, exe_name));
        proof {
            assert(r.deep_view() =~= seq![
                crate::paths::spec_join(exe_dir@, suffixed_name@),
                crate::paths::spec_join(
                    crate::paths::spec_join(exe_dir@, "resources"@),
                    suffixed_name@,
                ),
                crate::paths::spec_join(crate::paths::spec_join(exe_dir@, ".."@), suffixed_name@),
                crate::paths::spec_join(
                    crate::paths::spec_join(
                        crate::paths::spec_join(exe_dir@, ".."@),
                        "resources"@,
                    ),
                    suffixed_name@,
                ),
                crate::paths::spec_join("bin/steamcmd"@, exe_name@),
                crate::paths::spec_join(steamcmd_path@, exe_name@),
            ]);
        }
        r
    }

    /// How many fetch-tool instances one attempt uses: as many as there
    /// are items, but never more than the ceiling, and at least one.
    pub fn num_instances(mod_count: usize, max_instances: usize) -> (r: usize)
        ensures
            r == (if max_instances == 0 {
                1usize
            } else if mod_count == 0 {
                1usize
            } else if mod_count < max_instances {
                mod_count
            } else {
                max_instances
            }),
            r >= 1,
    {
        if max_instances == 0 || mod_count == 0 {
            1
        } else if mod_count < max_instances {
            mod_count
        } else {
            max_instances
        }
    }
}

/// Build one batch per instance from a total assignment of items to
/// instances: batch `b` holds, in order, exactly the items assigned to `b`.
fn build_batches(items: &Vec<String>, assign: &Vec<usize>, n: usize) -> (r: Vec<Vec<String>>)
    requires
        assign@.len() == items@.len(),
        forall|k: int| 0 <= k < assign@.len() ==> (#[trigger] assign@[k]) < n,
    ensures
        r@.len() == n,
        forall|b: int|
            0 <= b < n ==> #[trigger] r.deep_view()[b] == selected(
                items.deep_view(),
                assign@,
                b,
            ),
{
    let len = items.len();
    let mut r: Vec<Vec<String>> = Vec::new();
    let mut b: usize = 0;
    while b < n
        invariant
            len == items@.len(),
            assign@.len() == items@.len(),
            forall|k: int| 0 <= k < assign@.len() ==> (#[trigger] assign@[k]) < n,
            b <= n,
            r@.len() == b,
            forall|c: int|
                0 <= c < b ==> #[trigger] r.deep_view()[c] == selected(
                    items.deep_view(),
                    assign@,
                    c,
                ),
        decreases n - b,
    {
        let mut batch: Vec<String> = Vec::new();
        let mut k: usize = 0;
        proof {
            assert(items.deep_view().take(0) =~= Seq::<Seq<char>>::empty());
            assert(assign@.take(0) =~= Seq::<usize>::empty());
        }
        while k < len
            invariant
                len == items@.len(),
                assign@.len() == items@.len(),
                k <= len,
                batch.deep_view() == selected(
                    items.deep_view().take(k as int),
                    assign@.take(k as int),
                    b as int,
                ),
            decreases len - k,
        {
            let ghost prev = batch.deep_view();
            if assign[k] == b {
                batch.push(items[k].clone());
                proof {
                    assert(batch.deep_view() =~= prev.push(items.deep_view()[k as int]));
                }
            }
            proof {
                let ti = items.deep_view().take(k + 1);
                let ta = assign@.take(k + 1);
                assert(ti.drop_last() =~= items.deep_view().take(k as int));
                assert(ta.drop_last() =~= assign@.take(k as int));
                assert(ti.last() == items.deep_view()[k as int]);
                assert(ta.last() == assign@[k as int]);
            }
            k = k + 1;
        }
        proof {
            assert(items.deep_view().take(len as int) =~= items.deep_view());
            assert(assign@.take(len as int) =~= assign@);
        }
        let ghost before = r.deep_view();
        let ghost bview = batch.deep_view();
        r.push(batch);
        proof {
            assert(r.deep_view() =~= before.push(bview));
        }
        b = b + 1;
    }
    r
}

} // verus!
