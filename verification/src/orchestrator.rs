//! The retry orchestration of a fetch run.
//!
//! A run starts from the requested item ids and performs attempts.  Each
//! attempt fetches the remaining ids; the ids confirmed on disk leave the
//! remaining set and are reported as successes the moment they are
//! confirmed.  When attempts are exhausted the still-remaining ids are
//! reported as terminal failures; a cancelled run reports them as
//! cancelled.  Over a whole run every requested id is reported exactly
//! once with a terminal outcome.

use vstd::prelude::*;
use vstd::multiset::Multiset;

verus! {

/// A lifecycle report for one item.  `RetryQueued` is informational; the
/// other three are terminal: each item ends in exactly one of them.
pub enum ItemOutcome {
    Success { mod_id: String },
    Failed { mod_id: String, reason: String },
    RetryQueued { mod_id: String, attempt: u32, max_attempts: u32 },
    Cancelled { mod_id: String },
}

/// The abstraction of an `ItemOutcome`: the same shape over character
/// sequences.
pub enum OutcomeView {
    Success(Seq<char>),
    Failed(Seq<char>, Seq<char>),
    RetryQueued(Seq<char>, u32, u32),
    Cancelled(Seq<char>),
}

impl View for ItemOutcome {
    type V = OutcomeView;

    open spec fn view(&self) -> OutcomeView {
        match self {
            ItemOutcome::Success { mod_id } => OutcomeView::Success(mod_id@),
            ItemOutcome::Failed { mod_id, reason } => OutcomeView::Failed(mod_id@, reason@),
            ItemOutcome::RetryQueued { mod_id, attempt, max_attempts } => OutcomeView::RetryQueued(
                mod_id@,
                *attempt,
                *max_attempts,
            ),
            ItemOutcome::Cancelled { mod_id } => OutcomeView::Cancelled(mod_id@),
        }
    }
}

/// The views of a sequence of outcomes.
pub open spec fn outcome_views(s: Seq<ItemOutcome>) -> Seq<OutcomeView> {
    Seq::new(s.len(), |i: int| s[i]@)
}

/// The item id an outcome speaks of.
pub open spec fn outcome_id(o: OutcomeView) -> Seq<char> {
    match o {
        OutcomeView::Success(id) => id,
        OutcomeView::Failed(id, _) => id,
        OutcomeView::RetryQueued(id, _, _) => id,
        OutcomeView::Cancelled(id) => id,
    }
}

/// Whether an outcome is terminal.
pub open spec fn is_terminal(o: OutcomeView) -> bool {
    !(o is RetryQueued)
}

/// The multiset of ids that a sequence of outcomes reports terminally.
pub open spec fn terminal_ids(s: Seq<OutcomeView>) -> Multiset<Seq<char>>
    decreases s.len(),
{
    if s.len() == 0 {
        Multiset::empty()
    } else if is_terminal(s.last()) {
        terminal_ids(s.drop_last()).insert(outcome_id(s.last()))
    } else {
        terminal_ids(s.drop_last())
    }
}

/// Some outcome in `s` reports `id` as a success.
pub open spec fn has_success(s: Seq<OutcomeView>, id: Seq<char>) -> bool {
    exists|j: int| 0 <= j < s.len() && s[j] == OutcomeView::Success(id)
}

/// Some outcome in `s` reports `id` as a terminal failure.
pub open spec fn has_failed(s: Seq<OutcomeView>, id: Seq<char>) -> bool {
    exists|j: int| 0 <= j < s.len() && (s[j] is Failed) && outcome_id(s[j]) == id
}

/// Some outcome in `s` reports `id` as cancelled.
pub open spec fn has_cancelled(s: Seq<OutcomeView>, id: Seq<char>) -> bool {
    exists|j: int| 0 <= j < s.len() && s[j] == OutcomeView::Cancelled(id)
}

/// The ids of `rem` that `conf` does not hold, in order.
pub open spec fn seq_minus(rem: Seq<Seq<char>>, conf: Seq<Seq<char>>) -> Seq<Seq<char>>
    decreases rem.len(),
{
    if rem.len() == 0 {
        Seq::empty()
    } else {
        let rest = seq_minus(rem.drop_last(), conf);
        if conf.contains(rem.last()) {
            rest
        } else {
            rest.push(rem.last())
        }
    }
}

/// Membership in a difference.
pub proof fn lemma_seq_minus_contains(rem: Seq<Seq<char>>, conf: Seq<Seq<char>>, id: Seq<char>)
    ensures
        seq_minus(rem, conf).contains(id) <==> rem.contains(id) && !conf.contains(id),
    decreases rem.len(),
{
    if rem.len() > 0 {
        lemma_seq_minus_contains(rem.drop_last(), conf, id);
        let rest = seq_minus(rem.drop_last(), conf);
        if rem.contains(id) && !conf.contains(id) {
            if rem.last() == id {
                assert(seq_minus(rem, conf) == rest.push(id));
                assert(seq_minus(rem, conf).last() == id);
            } else {
                assert(rem.drop_last().contains(id)) by {
                    let k = choose|k: int| 0 <= k < rem.len() && rem[k] == id;
                    assert(rem.drop_last()[k] == id);
                }
                assert(rest.contains(id));
                let k = choose|k: int| 0 <= k < rest.len() && rest[k] == id;
                if conf.contains(rem.last()) {
                } else {
                    assert(rest.push(rem.last())[k] == id);
                }
            }
        }
        if seq_minus(rem, conf).contains(id) {
            let k = choose|k: int|
                0 <= k < seq_minus(rem, conf).len() && seq_minus(rem, conf)[k] == id;
            if conf.contains(rem.last()) {
                assert(rest.contains(id));
            } else {
                if k < rest.len() {
                    assert(rest.contains(id)) by {
                        assert(rest[k] == id);
                    }
                } else {
                    assert(id == rem.last());
                    assert(rem.contains(rem.last()));
                }
                assert(rem.drop_last().contains(id) ==> rem.contains(id)) by {
                    if rem.drop_last().contains(id) {
                        let t = choose|t: int|
                            0 <= t < rem.drop_last().len() && rem.drop_last()[t] == id;
                        assert(rem[t] == id);
                    }
                }
            }
        }
    }
}

/// A difference of a duplicate-free sequence is duplicate-free.
pub proof fn lemma_seq_minus_unique(rem: Seq<Seq<char>>, conf: Seq<Seq<char>>)
    requires
        forall|i: int, j: int| 0 <= i < j < rem.len() ==> rem[i] != rem[j],
    ensures
        forall|i: int, j: int|
            0 <= i < j < seq_minus(rem, conf).len() ==> seq_minus(rem, conf)[i] != seq_minus(
                rem,
                conf,
            )[j],
    decreases rem.len(),
{
    if rem.len() > 0 {
        assert(forall|i: int, j: int|
            0 <= i < j < rem.drop_last().len() ==> rem.drop_last()[i] != rem.drop_last()[j]);
        lemma_seq_minus_unique(rem.drop_last(), conf);
        let rest = seq_minus(rem.drop_last(), conf);
        let whole = seq_minus(rem, conf);
        if !conf.contains(rem.last()) {
            assert forall|i: int, j: int| 0 <= i < j < whole.len() implies whole[i] != whole[j] by {
                if j == whole.len() - 1 {
                    assert(whole[j] == rem.last());
                    assert(whole[i] == rest[i]);
                    lemma_seq_minus_contains(rem.drop_last(), conf, rest[i]);
                    let t = choose|t: int|
                        0 <= t < rem.drop_last().len() && rem.drop_last()[t] == rest[i];
                    assert(rem[t] == rest[i]);
                    assert(rem[rem.len() - 1] == rem.last());
                } else {
                    assert(whole[i] == rest[i]);
                    assert(whole[j] == rest[j]);
                }
            }
        }
    }
}

/// The ids removed by one attempt together with the ids still remaining are
/// exactly the ids the attempt started with.
pub proof fn lemma_seq_minus_partition(rem: Seq<Seq<char>>, conf: Seq<Seq<char>>)
    ensures
        confirmed_of(rem, conf).to_multiset().add(seq_minus(rem, conf).to_multiset())
            == rem.to_multiset(),
    decreases rem.len(),
{
    broadcast use vstd::seq_lib::group_to_multiset_ensures;

    if rem.len() == 0 {
        assert(confirmed_of(rem, conf) == Seq::<Seq<char>>::empty());
        assert(seq_minus(rem, conf) == Seq::<Seq<char>>::empty());
        assert(Seq::<Seq<char>>::empty().to_multiset().len() == 0);
        broadcast use vstd::multiset::lemma_multiset_empty_len;

        assert(Seq::<Seq<char>>::empty().to_multiset() =~= Multiset::<Seq<char>>::empty());
        assert(confirmed_of(rem, conf).to_multiset().add(seq_minus(rem, conf).to_multiset())
            =~= rem.to_multiset());
    } else {
        lemma_seq_minus_partition(rem.drop_last(), conf);
        assert(rem =~= rem.drop_last().push(rem.last()));
        assert(rem.to_multiset() =~= rem.drop_last().to_multiset().insert(rem.last()));
        if conf.contains(rem.last()) {
            assert(confirmed_of(rem, conf) == confirmed_of(rem.drop_last(), conf).push(
                rem.last(),
            ));
            assert(confirmed_of(rem, conf).to_multiset() =~= confirmed_of(
                rem.drop_last(),
                conf,
            ).to_multiset().insert(rem.last()));
            assert(confirmed_of(rem, conf).to_multiset().add(seq_minus(rem, conf).to_multiset())
                =~= rem.to_multiset());
        } else {
            assert(seq_minus(rem, conf) == seq_minus(rem.drop_last(), conf).push(rem.last()));
            assert(seq_minus(rem, conf).to_multiset() =~= seq_minus(
                rem.drop_last(),
                conf,
            ).to_multiset().insert(rem.last()));
            assert(confirmed_of(rem, conf).to_multiset().add(seq_minus(rem, conf).to_multiset())
                =~= rem.to_multiset());
        }
    }
}

/// The ids of `rem` that `conf` holds, in order.
pub open spec fn confirmed_of(rem: Seq<Seq<char>>, conf: Seq<Seq<char>>) -> Seq<Seq<char>>
    decreases rem.len(),
{
    if rem.len() == 0 {
        Seq::empty()
    } else {
        let rest = confirmed_of(rem.drop_last(), conf);
        if conf.contains(rem.last()) {
            rest.push(rem.last())
        } else {
            rest
        }
    }
}

/// Membership in an intersection.
pub proof fn lemma_confirmed_of_contains(rem: Seq<Seq<char>>, conf: Seq<Seq<char>>, id: Seq<char>)
    ensures
        confirmed_of(rem, conf).contains(id) <==> rem.contains(id) && conf.contains(id),
    decreases rem.len(),
{
    if rem.len() > 0 {
        lemma_confirmed_of_contains(rem.drop_last(), conf, id);
        let rest = confirmed_of(rem.drop_last(), conf);
        if rem.contains(id) && conf.contains(id) {
            if rem.last() == id {
                assert(confirmed_of(rem, conf) == rest.push(id));
                assert(confirmed_of(rem, conf).last() == id);
            } else {
                assert(rem.drop_last().contains(id)) by {
                    let k = choose|k: int| 0 <= k < rem.len() && rem[k] == id;
                    assert(rem.drop_last()[k] == id);
                }
                assert(rest.contains(id));
                let k = choose|k: int| 0 <= k < rest.len() && rest[k] == id;
                if conf.contains(rem.last()) {
                    assert(rest.push(rem.last())[k] == id);
                }
            }
        }
        if confirmed_of(rem, conf).contains(id) {
            let k = choose|k: int|
                0 <= k < confirmed_of(rem, conf).len() && confirmed_of(rem, conf)[k] == id;
            if conf.contains(rem.last()) {
                if k < rest.len() {
                    assert(rest.contains(id)) by {
                        assert(rest[k] == id);
                    }
                } else {
                    assert(id == rem.last());
                    assert(rem.contains(rem.last()));
                }
            } else {
                assert(rest.contains(id));
            }
            assert(rem.drop_last().contains(id) ==> rem.contains(id)) by {
                if rem.drop_last().contains(id) {
                    let t = choose|t: int|
                        0 <= t < rem.drop_last().len() && rem.drop_last()[t] == id;
                    assert(rem[t] == id);
                }
            }
        }
    }
}

/// The remaining ids after the first `a` attempts: what each attempt's
/// confirmed set left behind.
pub open spec fn rem_after(
    requested: Seq<Seq<char>>,
    confs: Seq<Seq<Seq<char>>>,
    a: int,
) -> Seq<Seq<char>>
    decreases a,
{
    if a <= 0 {
        requested
    } else {
        seq_minus(rem_after(requested, confs, a - 1), confs[a - 1])
    }
}

/// An id remains after `a` attempts exactly when it was requested and no
/// attempt so far confirmed it.
pub proof fn lemma_rem_after_contains(
    requested: Seq<Seq<char>>,
    confs: Seq<Seq<Seq<char>>>,
    a: int,
    id: Seq<char>,
)
    requires
        0 <= a,
    ensures
        rem_after(requested, confs, a).contains(id) <==> requested.contains(id) && forall|k: int|
            0 <= k < a ==> !(#[trigger] confs[k]).contains(id),
    decreases a,
{
    if a > 0 {
        lemma_rem_after_contains(requested, confs, a - 1, id);
        lemma_seq_minus_contains(rem_after(requested, confs, a - 1), confs[a - 1], id);
    }
}

/// One success outcome per id, in order.
pub open spec fn successes_view(ids: Seq<Seq<char>>) -> Seq<OutcomeView> {
    Seq::new(ids.len(), |i: int| OutcomeView::Success(ids[i]))
}

/// One terminal failure per id, in order, all with the same reason.
pub open spec fn faileds_view(ids: Seq<Seq<char>>, reason: Seq<char>) -> Seq<OutcomeView> {
    Seq::new(ids.len(), |i: int| OutcomeView::Failed(ids[i], reason))
}

/// One retry notice per id, in order.
pub open spec fn retries_view(ids: Seq<Seq<char>>, attempt: u32, max: u32) -> Seq<OutcomeView> {
    Seq::new(ids.len(), |i: int| OutcomeView::RetryQueued(ids[i], attempt, max))
}

/// One cancellation per id, in order.
pub open spec fn cancels_view(ids: Seq<Seq<char>>) -> Seq<OutcomeView> {
    Seq::new(ids.len(), |i: int| OutcomeView::Cancelled(ids[i]))
}

/// What each mapped outcome block reports: its terminal ids and which kinds
/// of reports it holds.
pub proof fn lemma_mapped_views(ids: Seq<Seq<char>>, reason: Seq<char>, attempt: u32, max: u32)
    ensures
        terminal_ids(successes_view(ids)) == ids.to_multiset(),
        terminal_ids(faileds_view(ids, reason)) == ids.to_multiset(),
        terminal_ids(cancels_view(ids)) == ids.to_multiset(),
        terminal_ids(retries_view(ids, attempt, max)) == Multiset::<Seq<char>>::empty(),
        forall|id: Seq<char>| has_success(successes_view(ids), id) <==> ids.contains(id),
        forall|id: Seq<char>| has_failed(faileds_view(ids, reason), id) <==> ids.contains(id),
        forall|id: Seq<char>| has_cancelled(cancels_view(ids), id) <==> ids.contains(id),
        forall|id: Seq<char>|
            !has_failed(successes_view(ids), id) && !has_cancelled(successes_view(ids), id),
        forall|id: Seq<char>|
            !has_success(faileds_view(ids, reason), id) && !has_cancelled(
                faileds_view(ids, reason),
                id,
            ),
        forall|id: Seq<char>|
            !has_success(retries_view(ids, attempt, max), id) && !has_failed(
                retries_view(ids, attempt, max),
                id,
            ) && !has_cancelled(retries_view(ids, attempt, max), id),
        forall|id: Seq<char>|
            !has_success(cancels_view(ids), id) && !has_failed(cancels_view(ids), id),
    decreases ids.len(),
{
    broadcast use vstd::seq_lib::group_to_multiset_ensures;
    broadcast use vstd::multiset::lemma_multiset_empty_len;

    if ids.len() == 0 {
        assert(successes_view(ids) =~= Seq::<OutcomeView>::empty());
        assert(faileds_view(ids, reason) =~= Seq::<OutcomeView>::empty());
        assert(retries_view(ids, attempt, max) =~= Seq::<OutcomeView>::empty());
        assert(cancels_view(ids) =~= Seq::<OutcomeView>::empty());
        assert(ids.to_multiset().len() == 0);
        assert(ids.to_multiset() =~= Multiset::<Seq<char>>::empty());
    } else {
        lemma_mapped_views(ids.drop_last(), reason, attempt, max);
        assert(successes_view(ids).drop_last() =~= successes_view(ids.drop_last()));
        assert(faileds_view(ids, reason).drop_last() =~= faileds_view(ids.drop_last(), reason));
        assert(retries_view(ids, attempt, max).drop_last() =~= retries_view(
            ids.drop_last(),
            attempt,
            max,
        ));
        assert(cancels_view(ids).drop_last() =~= cancels_view(ids.drop_last()));
        assert(ids =~= ids.drop_last().push(ids.last()));
        assert(ids.to_multiset() =~= ids.drop_last().to_multiset().insert(ids.last()));
        assert(successes_view(ids).last() == OutcomeView::Success(ids.last()));
        assert(faileds_view(ids, reason).last() == OutcomeView::Failed(ids.last(), reason));
        assert(retries_view(ids, attempt, max).last() == OutcomeView::RetryQueued(
            ids.last(),
            attempt,
            max,
        ));
        assert(cancels_view(ids).last() == OutcomeView::Cancelled(ids.last()));
        assert forall|id: Seq<char>| ids.contains(id) implies has_success(
            successes_view(ids),
            id,
        ) by {
            let k = choose|k: int| 0 <= k < ids.len() && ids[k] == id;
            assert(successes_view(ids)[k] == OutcomeView::Success(id));
        }
        assert forall|id: Seq<char>| has_success(successes_view(ids), id) implies ids.contains(
            id,
        ) by {
            let j = choose|j: int|
                0 <= j < successes_view(ids).len() && successes_view(ids)[j]
                    == OutcomeView::Success(id);
            assert(ids[j] == id);
        }
        assert forall|id: Seq<char>| ids.contains(id) implies has_failed(
            faileds_view(ids, reason),
            id,
        ) by {
            let k = choose|k: int| 0 <= k < ids.len() && ids[k] == id;
            assert(faileds_view(ids, reason)[k] == OutcomeView::Failed(id, reason));
        }
        assert forall|id: Seq<char>| has_failed(faileds_view(ids, reason), id) implies ids.contains(
            id,
        ) by {
            let j = choose|j: int|
                0 <= j < faileds_view(ids, reason).len() && (faileds_view(ids, reason)[j]
                    is Failed) && outcome_id(faileds_view(ids, reason)[j]) == id;
            assert(ids[j] == id);
        }
        assert forall|id: Seq<char>| ids.contains(id) implies has_cancelled(
            cancels_view(ids),
            id,
        ) by {
            let k = choose|k: int| 0 <= k < ids.len() && ids[k] == id;
            assert(cancels_view(ids)[k] == OutcomeView::Cancelled(id));
        }
        assert forall|id: Seq<char>| has_cancelled(cancels_view(ids), id) implies ids.contains(
            id,
        ) by {
            let j = choose|j: int|
                0 <= j < cancels_view(ids).len() && cancels_view(ids)[j] == OutcomeView::Cancelled(
                    id,
                );
            assert(ids[j] == id);
        }
    }
}

/// Terminal reports and report kinds distribute over concatenation.
pub proof fn lemma_views_concat(a: Seq<OutcomeView>, b: Seq<OutcomeView>)
    ensures
        terminal_ids(a + b) == terminal_ids(a).add(terminal_ids(b)),
        forall|id: Seq<char>|
            has_success(a + b, id) <==> has_success(a, id) || has_success(b, id),
        forall|id: Seq<char>| has_failed(a + b, id) <==> has_failed(a, id) || has_failed(b, id),
        forall|id: Seq<char>|
            has_cancelled(a + b, id) <==> has_cancelled(a, id) || has_cancelled(b, id),
    decreases b.len(),
{
    broadcast use vstd::multiset::lemma_multiset_empty_len;

    if b.len() == 0 {
        assert(a + b =~= a);
        assert(terminal_ids(b).len() == 0);
        assert(terminal_ids(b) =~= Multiset::<Seq<char>>::empty());
        assert(terminal_ids(a).add(terminal_ids(b)) =~= terminal_ids(a));
        assert forall|id: Seq<char>| has_success(b, id) implies false by {}
        assert forall|id: Seq<char>| has_failed(b, id) implies false by {}
        assert forall|id: Seq<char>| has_cancelled(b, id) implies false by {}
    } else {
        lemma_views_concat(a, b.drop_last());
        assert((a + b).drop_last() =~= a + b.drop_last());
        assert((a + b).last() == b.last());
        if is_terminal(b.last()) {
            assert(terminal_ids(a + b) =~= terminal_ids(a).add(terminal_ids(b)));
        } else {
            assert(terminal_ids(a + b) =~= terminal_ids(a).add(terminal_ids(b)));
        }
        assert forall|id: Seq<char>|
            has_success(a + b, id) <==> has_success(a, id) || has_success(b, id) by {
            lemma_last_membership(a, b, id);
        }
        assert forall|id: Seq<char>|
            has_failed(a + b, id) <==> has_failed(a, id) || has_failed(b, id) by {
            lemma_last_membership(a, b, id);
        }
        assert forall|id: Seq<char>|
            has_cancelled(a + b, id) <==> has_cancelled(a, id) || has_cancelled(b, id) by {
            lemma_last_membership(a, b, id);
        }
    }
}

proof fn lemma_last_membership(a: Seq<OutcomeView>, b: Seq<OutcomeView>, id: Seq<char>)
    requires
        b.len() > 0,
        terminal_ids(a + b.drop_last()) == terminal_ids(a).add(terminal_ids(b.drop_last())),
        has_success(a + b.drop_last(), id) <==> has_success(a, id) || has_success(
            b.drop_last(),
            id,
        ),
        has_failed(a + b.drop_last(), id) <==> has_failed(a, id) || has_failed(b.drop_last(), id),
        has_cancelled(a + b.drop_last(), id) <==> has_cancelled(a, id) || has_cancelled(
            b.drop_last(),
            id,
        ),
    ensures
        has_success(a + b, id) <==> has_success(a, id) || has_success(b, id),
        has_failed(a + b, id) <==> has_failed(a, id) || has_failed(b, id),
        has_cancelled(a + b, id) <==> has_cancelled(a, id) || has_cancelled(b, id),
{
    let ab = a + b;
    let abd = a + b.drop_last();
    assert(ab.drop_last() =~= abd);
    assert(ab.last() == b.last());
    if has_success(ab, id) {
        let j = choose|j: int| 0 <= j < ab.len() && ab[j] == OutcomeView::Success(id);
        if j < ab.len() - 1 {
            assert(abd[j] == OutcomeView::Success(id));
            assert(has_success(abd, id));
        } else {
            assert(b.last() == OutcomeView::Success(id));
            assert(b[b.len() - 1] == OutcomeView::Success(id));
            assert(has_success(b, id));
        }
    }
    if has_success(a, id) || has_success(b, id) {
        if has_success(a, id) {
            let j = choose|j: int| 0 <= j < a.len() && a[j] == OutcomeView::Success(id);
            assert(ab[j] == OutcomeView::Success(id));
        } else {
            let j = choose|j: int| 0 <= j < b.len() && b[j] == OutcomeView::Success(id);
            assert(ab[a.len() + j] == OutcomeView::Success(id));
        }
        assert(has_success(ab, id));
    }
    if has_failed(ab, id) {
        let j = choose|j: int| 0 <= j < ab.len() && (ab[j] is Failed) && outcome_id(ab[j]) == id;
        if j < ab.len() - 1 {
            assert(abd[j] is Failed && outcome_id(abd[j]) == id);
            assert(has_failed(abd, id));
        } else {
            assert(b[b.len() - 1] is Failed && outcome_id(b[b.len() - 1]) == id);
            assert(has_failed(b, id));
        }
    }
    if has_failed(a, id) || has_failed(b, id) {
        if has_failed(a, id) {
            let j = choose|j: int| 0 <= j < a.len() && (a[j] is Failed) && outcome_id(a[j]) == id;
            assert(ab[j] is Failed && outcome_id(ab[j]) == id);
        } else {
            let j = choose|j: int| 0 <= j < b.len() && (b[j] is Failed) && outcome_id(b[j]) == id;
            assert(ab[a.len() + j] is Failed && outcome_id(ab[a.len() + j]) == id);
        }
        assert(has_failed(ab, id));
    }
    if has_cancelled(ab, id) {
        let j = choose|j: int| 0 <= j < ab.len() && ab[j] == OutcomeView::Cancelled(id);
        if j < ab.len() - 1 {
            assert(abd[j] == OutcomeView::Cancelled(id));
            assert(has_cancelled(abd, id));
        } else {
            assert(b[b.len() - 1] == OutcomeView::Cancelled(id));
            assert(has_cancelled(b, id));
        }
    }
    if has_cancelled(a, id) || has_cancelled(b, id) {
        if has_cancelled(a, id) {
            let j = choose|j: int| 0 <= j < a.len() && a[j] == OutcomeView::Cancelled(id);
            assert(ab[j] == OutcomeView::Cancelled(id));
        } else {
            let j = choose|j: int| 0 <= j < b.len() && b[j] == OutcomeView::Cancelled(id);
            assert(ab[a.len() + j] == OutcomeView::Cancelled(id));
        }
        assert(has_cancelled(ab, id));
    }
}

/// Powers of two, for the retry backoff.
pub open spec fn pow2(e: int) -> int
    decreases e,
{
    if e <= 0 {
        1
    } else {
        2 * pow2(e - 1)
    }
}

/// The backoff before the retry that follows `attempts` completed attempts:
/// one second doubled per completed attempt, capped at thirty-two seconds.
pub open spec fn spec_backoff_secs(attempts: u32) -> int {
    if attempts >= 6 {
        32
    } else {
        pow2(attempts - 1)
    }
}

/// One fetch run: the ids still to fetch, and how many attempts were made.
pub struct DownloadRun {
    remaining: Vec<String>,
    attempts_made: u32,
    max_attempts: u32,
    done: bool,
}

impl DownloadRun {
    /// The ids not yet confirmed.
    pub closed spec fn remaining_ids(&self) -> Seq<Seq<char>> {
        self.remaining.deep_view()
    }

    pub closed spec fn attempts(&self) -> u32 {
        self.attempts_made
    }

    pub closed spec fn max(&self) -> u32 {
        self.max_attempts
    }

    /// Whether the run has ended (all confirmed, retries exhausted, or
    /// cancelled).
    pub closed spec fn is_done_spec(&self) -> bool {
        self.done
    }

    /// Remaining ids are pairwise distinct, the attempt count never passes
    /// its bound, and while the run goes on there are attempts left.
    pub open spec fn wf(&self) -> bool {
        &&& forall|i: int, j: int|
            0 <= i < j < self.remaining_ids().len() ==> self.remaining_ids()[i]
                != self.remaining_ids()[j]
        &&& self.attempts() <= self.max()
        &&& self.max() >= 1
        &&& (!self.is_done_spec() ==> self.attempts() < self.max())
    }

    /// Start a run over `requested` with at most `max_attempts` attempts.
    /// A run over nothing is immediately done.
    pub fn new(requested: Vec<String>, max_attempts: u32) -> (r: DownloadRun)
        requires
            forall|i: int, j: int|
                0 <= i < j < requested.deep_view().len() ==> requested.deep_view()[i]
                    != requested.deep_view()[j],
            max_attempts >= 1,
        ensures
            r.wf(),
            r.remaining_ids() == requested.deep_view(),
            r.attempts() == 0,
            r.max() == max_attempts,
            r.is_done_spec() == (requested.deep_view().len() == 0),
    {
        let done = requested.len() == 0;
        DownloadRun { remaining: requested, attempts_made: 0, max_attempts, done }
    }

    pub fn is_done(&self) -> (r: bool)
        ensures
            r == self.is_done_spec(),
    {
        self.done
    }

    pub fn attempts_made(&self) -> (r: u32)
        ensures
            r == self.attempts(),
    {
        self.attempts_made
    }

    /// How many ids are still to fetch.
    pub fn remaining_count(&self) -> (r: usize)
        ensures
            r == self.remaining_ids().len(),
    {
        self.remaining.len()
    }

    /// The ids the next attempt must fetch.
    pub fn remaining_mod_ids(&self) -> (r: &Vec<String>)
        ensures
            r.deep_view() == self.remaining_ids(),
    {
        &self.remaining
    }

    /// Seconds to sleep before the next attempt: exponential in the number
    /// of completed attempts, capped.
    pub fn backoff_secs(&self) -> (r: u64)
        requires
            self.attempts() >= 1,
        ensures
            r == spec_backoff_secs(self.attempts()),
    {
        let e: u32 = if self.attempts_made >= 6 {
            5
        } else {
            self.attempts_made - 1
        };
        let mut s: u64 = 1;
        let mut k: u32 = 0;
        while k < e
            invariant
                e <= 5,
                k <= e,
                s == pow2(k as int),
                s <= 32,
            decreases e - k,
        {
            proof {
                lemma_pow2_bound(k as int + 1);
            }
            s = s * 2;
            k = k + 1;
        }
        proof {
            if self.attempts_made >= 6 {
                lemma_pow2_five();
            }
        }
        s
    }

    /// Record one attempt: the ids of `confirmed` that were still remaining
    /// are reported as successes and leave the run.  If nothing remains the
    /// run is done; if the attempt limit is reached the rest are reported
    /// as terminal failures and the run is done; otherwise each remaining
    /// id is queued for the next attempt.
    pub fn record_attempt(&mut self, confirmed: &Vec<String>) -> (events: Vec<ItemOutcome>)
        requires
            old(self).wf(),
            !old(self).is_done_spec(),
        ensures
            final(self).wf(),
            final(self).max() == old(self).max(),
            final(self).attempts() == old(self).attempts() + 1,
            final(self).remaining_ids() == seq_minus(
                old(self).remaining_ids(),
                confirmed.deep_view(),
            ),
            final(self).is_done_spec() == (final(self).remaining_ids().len() == 0
                || final(self).attempts() == final(self).max()),
            outcome_views(events@) == successes_view(
                confirmed_of(old(self).remaining_ids(), confirmed.deep_view()),
            ) + closing_views(
                final(self).remaining_ids(),
                final(self).attempts(),
                final(self).max(),
            ),
    {
        let ghost old_rem = self.remaining.deep_view();
        let ghost conf_v = confirmed.deep_view();
        let n = self.remaining.len();
        let mut new_remaining: Vec<String> = Vec::new();
        let mut events: Vec<ItemOutcome> = Vec::new();
        let mut k: usize = 0;
        proof {
            assert(old_rem.take(0) =~= Seq::<Seq<char>>::empty());
            assert(outcome_views(events@) =~= Seq::<OutcomeView>::empty());
            assert(successes_view(confirmed_of(old_rem.take(0), conf_v)) =~= Seq::<
                OutcomeView,
            >::empty());
            assert(seq_minus(old_rem.take(0), conf_v) =~= Seq::<Seq<char>>::empty());
        }
        while k < n
            invariant
                *self == *old(self),
                n == self.remaining@.len(),
                old_rem == self.remaining.deep_view(),
                conf_v == confirmed.deep_view(),
                k <= n,
                outcome_views(events@) == successes_view(
                    confirmed_of(old_rem.take(k as int), conf_v),
                ),
                new_remaining.deep_view() == seq_minus(old_rem.take(k as int), conf_v),
            decreases n - k,
        {
            let ghost prev_events = outcome_views(events@);
            let ghost prev_rem = new_remaining.deep_view();
            let id_confirmed = crate::strings::vec_contains_str(
                confirmed,
                self.remaining[k].as_str(),
            );
            if id_confirmed {
                events.push(ItemOutcome::Success { mod_id: self.remaining[k].clone() });
                proof {
                    assert(outcome_views(events@) =~= prev_events.push(
                        OutcomeView::Success(old_rem[k as int]),
                    ));
                }
            } else {
                new_remaining.push(self.remaining[k].clone());
                proof {
                    assert(new_remaining.deep_view() =~= prev_rem.push(old_rem[k as int]));
                }
            }
            proof {
                let t1 = old_rem.take(k + 1);
                assert(t1.drop_last() =~= old_rem.take(k as int));
                assert(t1.last() == old_rem[k as int]);
                if conf_v.contains(old_rem[k as int]) {
                    assert(confirmed_of(t1, conf_v) == confirmed_of(
                        old_rem.take(k as int),
                        conf_v,
                    ).push(old_rem[k as int]));
                    assert(outcome_views(events@) =~= successes_view(confirmed_of(t1, conf_v)));
                } else {
                    assert(outcome_views(events@) =~= successes_view(confirmed_of(t1, conf_v)));
                }
            }
            k = k + 1;
        }
        proof {
            assert(old_rem.take(n as int) =~= old_rem);
            assert forall|i: int, j: int| 0 <= i < j < old_rem.len() implies old_rem[i]
                != old_rem[j] by {
                assert(old(self).remaining_ids()[i] != old(self).remaining_ids()[j]);
            }
            lemma_seq_minus_unique(old_rem, conf_v);
        }
        let ghost successes = outcome_views(events@);
        self.remaining = new_remaining;
        self.attempts_made = self.attempts_made + 1;
        let ghost new_rem = self.remaining.deep_view();
        if self.remaining.len() == 0 {
            self.done = true;
            proof {
                assert(closing_views(new_rem, self.attempts_made, self.max_attempts) =~= Seq::<
                    OutcomeView,
                >::empty());
                assert(outcome_views(events@) =~= successes + closing_views(
                    new_rem,
                    self.attempts_made,
                    self.max_attempts,
                ));
            }
        } else if self.attempts_made == self.max_attempts {
            self.done = true;
            let rlen = self.remaining.len();
            let mut t: usize = 0;
            proof {
                assert(new_rem.take(0) =~= Seq::<Seq<char>>::empty());
                assert(successes + faileds_view(new_rem.take(0), failure_reason()) =~= successes);
            }
            while t < rlen
                invariant
                    rlen == self.remaining@.len(),
                    new_rem == self.remaining.deep_view(),
                    t <= rlen,
                    outcome_views(events@) == successes + faileds_view(
                        new_rem.take(t as int),
                        failure_reason(),
                    ),
                decreases rlen - t,
            {
                let ghost prev_events = outcome_views(events@);
                let reason = String::from_str("download failed: retry attempts exhausted");
                proof {
                    reveal_strlit("download failed: retry attempts exhausted");
                }
                events.push(
                    ItemOutcome::Failed { mod_id: self.remaining[t].clone(), reason },
                );
                proof {
                    assert(outcome_views(events@) =~= prev_events.push(
                        OutcomeView::Failed(new_rem[t as int], failure_reason()),
                    ));
                    assert(new_rem.take(t + 1).drop_last() =~= new_rem.take(t as int));
                    assert(new_rem.take(t + 1).last() == new_rem[t as int]);
                    assert(faileds_view(new_rem.take(t + 1), failure_reason()).drop_last()
                        =~= faileds_view(new_rem.take(t as int), failure_reason()));
                    assert(outcome_views(events@) =~= successes + faileds_view(
                        new_rem.take(t + 1),
                        failure_reason(),
                    ));
                }
                t = t + 1;
            }
            proof {
                assert(new_rem.take(rlen as int) =~= new_rem);
            }
        } else {
            let rlen = self.remaining.len();
            let next_attempt = self.attempts_made + 1;
            let mut t: usize = 0;
            proof {
                assert(new_rem.take(0) =~= Seq::<Seq<char>>::empty());
                assert(successes + retries_view(new_rem.take(0), next_attempt, self.max_attempts)
                    =~= successes);
            }
            while t < rlen
                invariant
                    rlen == self.remaining@.len(),
                    new_rem == self.remaining.deep_view(),
                    next_attempt == self.attempts_made + 1,
                    t <= rlen,
                    outcome_views(events@) == successes + retries_view(
                        new_rem.take(t as int),
                        next_attempt,
                        self.max_attempts,
                    ),
                decreases rlen - t,
            {
                let ghost prev_events = outcome_views(events@);
                events.push(
                    ItemOutcome::RetryQueued {
                        mod_id: self.remaining[t].clone(),
                        attempt: next_attempt,
                        max_attempts: self.max_attempts,
                    },
                );
                proof {
                    assert(outcome_views(events@) =~= prev_events.push(
                        OutcomeView::RetryQueued(
                            new_rem[t as int],
                            next_attempt,
                            self.max_attempts,
                        ),
                    ));
                    assert(new_rem.take(t + 1).drop_last() =~= new_rem.take(t as int));
                    assert(new_rem.take(t + 1).last() == new_rem[t as int]);
                    assert(retries_view(new_rem.take(t + 1), next_attempt, self.max_attempts)
                        .drop_last() =~= retries_view(
                        new_rem.take(t as int),
                        next_attempt,
                        self.max_attempts,
                    ));
                    assert(outcome_views(events@) =~= successes + retries_view(
                        new_rem.take(t + 1),
                        next_attempt,
                        self.max_attempts,
                    ));
                }
                t = t + 1;
            }
            proof {
                assert(new_rem.take(rlen as int) =~= new_rem);
            }
        }
        events
    }

    /// Cancel the run: every remaining id is reported cancelled, exactly
    /// once, and the run is done.  Items already reported successful keep
    /// their reports; no new attempt will start.
    pub fn cancel(&mut self) -> (events: Vec<ItemOutcome>)
        requires
            old(self).wf(),
        ensures
            final(self).wf(),
            final(self).is_done_spec(),
            final(self).max() == old(self).max(),
            final(self).remaining_ids().len() == 0,
            outcome_views(events@) == cancels_view(old(self).remaining_ids()),
            terminal_ids(outcome_views(events@)) == old(self).remaining_ids().to_multiset(),
    {
        let ghost old_rem = self.remaining.deep_view();
        let mut events: Vec<ItemOutcome> = Vec::new();
        let rlen = self.remaining.len();
        let mut t: usize = 0;
        proof {
            assert(old_rem.take(0) =~= Seq::<Seq<char>>::empty());
            assert(outcome_views(events@) =~= cancels_view(old_rem.take(0)));
        }
        while t < rlen
            invariant
                *self == *old(self),
                rlen == self.remaining@.len(),
                old_rem == self.remaining.deep_view(),
                t <= rlen,
                outcome_views(events@) == cancels_view(old_rem.take(t as int)),
            decreases rlen - t,
        {
            let ghost prev_events = outcome_views(events@);
            events.push(ItemOutcome::Cancelled { mod_id: self.remaining[t].clone() });
            proof {
                assert(outcome_views(events@) =~= prev_events.push(
                    OutcomeView::Cancelled(old_rem[t as int]),
                ));
                assert(old_rem.take(t + 1).drop_last() =~= old_rem.take(t as int));
                assert(old_rem.take(t + 1).last() == old_rem[t as int]);
                assert(cancels_view(old_rem.take(t + 1)).drop_last() =~= cancels_view(
                    old_rem.take(t as int),
                ));
                assert(outcome_views(events@) =~= cancels_view(old_rem.take(t + 1)));
            }
            t = t + 1;
        }
        proof {
            assert(old_rem.take(rlen as int) =~= old_rem);
        }
        self.remaining = Vec::new();
        self.done = true;
        if self.attempts_made >= self.max_attempts {
            self.attempts_made = self.max_attempts;
        }
        proof {
            lemma_mapped_views(old_rem, failure_reason(), 0, 0);
        }
        events
    }
}

/// The reason reported when the retry limit is exhausted.
pub open spec fn failure_reason() -> Seq<char> {
    "download failed: retry attempts exhausted"@
}

/// The reports that close one attempt: none when everything is confirmed,
/// terminal failures when the attempt limit is reached, retry notices
/// otherwise.
pub open spec fn closing_views(new_rem: Seq<Seq<char>>, attempts: u32, max: u32) -> Seq<
    OutcomeView,
> {
    if new_rem.len() == 0 {
        Seq::empty()
    } else if attempts == max {
        faileds_view(new_rem, failure_reason())
    } else {
        retries_view(new_rem, (attempts + 1) as u32, max)
    }
}

/// Drive a run from its start to its end, one attempt at a time, with
/// `confirmations[k]` the ids confirmed on disk during attempt `k`.
///
/// Every requested id is reported terminally exactly once: as a success
/// exactly when some attempt that ran confirmed it, and as a failure
/// exactly when no attempt would ever confirm it — and in that case only
/// after the full number of attempts.  Nothing is reported cancelled.
pub fn run_to_completion(
    requested: Vec<String>,
    confirmations: &Vec<Vec<String>>,
    max_attempts: u32,
) -> (r: (Vec<ItemOutcome>, u32))
    requires
        forall|i: int, j: int|
            0 <= i < j < requested.deep_view().len() ==> requested.deep_view()[i]
                != requested.deep_view()[j],
        max_attempts >= 1,
        confirmations@.len() == max_attempts,
    ensures
        terminal_ids(outcome_views(r.0@)) == requested.deep_view().to_multiset(),
        r.1 <= max_attempts,
        forall|id: Seq<char>|
            has_success(outcome_views(r.0@), id) <==> requested.deep_view().contains(id)
                && exists|k: int|
                0 <= k < r.1 && (#[trigger] confirmations.deep_view()[k]).contains(id),
        forall|id: Seq<char>|
            has_failed(outcome_views(r.0@), id) <==> requested.deep_view().contains(id) && forall|
                k: int,
            |
                0 <= k < max_attempts ==> !(#[trigger] confirmations.deep_view()[k]).contains(id),
        (exists|id: Seq<char>| has_failed(outcome_views(r.0@), id)) ==> r.1 == max_attempts,
        forall|id: Seq<char>| !has_cancelled(outcome_views(r.0@), id),
{
    let ghost reqv = requested.deep_view();
    let ghost confv = confirmations.deep_view();
    let mut run = DownloadRun::new(requested, max_attempts);
    let mut all_events: Vec<ItemOutcome> = Vec::new();
    proof {
        broadcast use vstd::seq_lib::group_to_multiset_ensures;
        broadcast use vstd::multiset::lemma_multiset_empty_len;

        assert(outcome_views(all_events@) =~= Seq::<OutcomeView>::empty());
        assert(terminal_ids(Seq::<OutcomeView>::empty()) =~= Multiset::<Seq<char>>::empty());
        if reqv.len() == 0 {
            assert(reqv.to_multiset().len() == 0);
            assert(reqv.to_multiset() =~= Multiset::<Seq<char>>::empty());
        }
    }
    while !run.is_done()
        invariant
            run.wf(),
            run.max() == max_attempts,
            confv == confirmations.deep_view(),
            confv.len() == max_attempts,
            forall|i: int, j: int| 0 <= i < j < reqv.len() ==> reqv[i] != reqv[j],
            run.remaining_ids() == rem_after(reqv, confv, run.attempts() as int),
            run.is_done_spec() ==> (run.remaining_ids().len() == 0 || run.attempts()
                == run.max()),
            if run.is_done_spec() {
                terminal_ids(outcome_views(all_events@)) == reqv.to_multiset()
            } else {
                terminal_ids(outcome_views(all_events@)).add(
                    run.remaining_ids().to_multiset(),
                ) == reqv.to_multiset()
            },
            forall|id: Seq<char>| #![trigger has_success(outcome_views(all_events@), id)]
                has_success(outcome_views(all_events@), id) <==> reqv.contains(id) && exists|
                    k: int,
                | 0 <= k < run.attempts() && (#[trigger] confv[k]).contains(id),
            forall|id: Seq<char>| #![trigger has_failed(outcome_views(all_events@), id)]
                has_failed(outcome_views(all_events@), id) <==> run.is_done_spec()
                    && run.remaining_ids().contains(id),
            forall|id: Seq<char>| !has_cancelled(outcome_views(all_events@), id),
        decreases max_attempts - run.attempts(),
    {
        let ghost v_before = outcome_views(all_events@);
        let ghost a = run.attempts() as int;
        let ghost old_rem = run.remaining_ids();
        let idx: usize = run.attempts_made() as usize;
        let confirmed = &confirmations[idx];
        let ghost conf_a = confirmed.deep_view();
        proof {
            assert(confv[a] == conf_a);
        }
        let mut events = run.record_attempt(confirmed);
        let ghost ev = outcome_views(events@);
        let ghost new_rem = run.remaining_ids();
        all_events.append(&mut events);
        proof {
            broadcast use vstd::seq_lib::group_to_multiset_ensures;
            broadcast use vstd::multiset::lemma_multiset_empty_len;

            let v_now = outcome_views(all_events@);
            assert(v_now =~= v_before + ev);
            let succ = successes_view(confirmed_of(old_rem, conf_a));
            let closing = closing_views(new_rem, run.attempts(), max_attempts);
            assert(ev == succ + closing);
            lemma_views_concat(succ, closing);
            lemma_views_concat(v_before, ev);
            lemma_mapped_views(confirmed_of(old_rem, conf_a), failure_reason(), 0u32, 0u32);
            lemma_mapped_views(new_rem, failure_reason(), (run.attempts() + 1) as u32, max_attempts);
            lemma_seq_minus_partition(old_rem, conf_a);
            if new_rem.len() == 0 {
                assert(new_rem.to_multiset().len() == 0);
                assert(new_rem.to_multiset() =~= Multiset::<Seq<char>>::empty());
                assert(closing =~= Seq::<OutcomeView>::empty());
                assert(terminal_ids(closing) =~= Multiset::<Seq<char>>::empty());
            }
            // Terminal multiset bookkeeping.
            assert(terminal_ids(succ) == confirmed_of(old_rem, conf_a).to_multiset());
            if run.is_done_spec() {
                assert(terminal_ids(v_now) =~= reqv.to_multiset());
            } else {
                assert(terminal_ids(closing) =~= Multiset::<Seq<char>>::empty());
                assert(terminal_ids(v_now).add(new_rem.to_multiset()) =~= reqv.to_multiset());
            }
            // Success characterisation.
            assert forall|id: Seq<char>|
                has_success(v_now, id) <==> reqv.contains(id) && exists|k: int|
                    0 <= k < run.attempts() && (#[trigger] confv[k]).contains(id) by {
                lemma_confirmed_of_contains(old_rem, conf_a, id);
                lemma_rem_after_contains(reqv, confv, a, id);
                if has_success(v_now, id) {
                    if has_success(v_before, id) {
                        let k = choose|k: int|
                            0 <= k < a && (#[trigger] confv[k]).contains(id);
                        assert(0 <= k < run.attempts() && confv[k].contains(id));
                    } else {
                        assert(has_success(succ, id) || has_success(closing, id));
                        assert(has_success(succ, id));
                        assert(confirmed_of(old_rem, conf_a).contains(id));
                        assert(confv[a].contains(id));
                        assert(0 <= a < run.attempts() && confv[a].contains(id));
                    }
                }
                if reqv.contains(id) && exists|k: int|
                    0 <= k < run.attempts() && (#[trigger] confv[k]).contains(id) {
                    let k = choose|k: int|
                        0 <= k < run.attempts() && (#[trigger] confv[k]).contains(id);
                    if k < a {
                        assert(has_success(v_before, id));
                    } else {
                        assert(k == a);
                        if has_success(v_before, id) {
                        } else {
                            assert(!(exists|k2: int|
                                0 <= k2 < a && (#[trigger] confv[k2]).contains(id)));
                            assert(forall|k2: int|
                                0 <= k2 < a ==> !(#[trigger] confv[k2]).contains(id));
                            assert(old_rem.contains(id));
                            assert(confirmed_of(old_rem, conf_a).contains(id));
                            assert(has_success(succ, id));
                        }
                    }
                }
            }
            // Failure characterisation.
            assert forall|id: Seq<char>|
                has_failed(v_now, id) <==> run.is_done_spec() && run.remaining_ids().contains(
                    id,
                ) by {
                assert(!has_failed(v_before, id));
                assert(!has_failed(succ, id));
                if run.attempts() == max_attempts && new_rem.len() > 0 {
                    assert(closing == faileds_view(new_rem, failure_reason()));
                    assert(has_failed(closing, id) <==> new_rem.contains(id));
                } else {
                    if new_rem.len() == 0 {
                        assert(closing =~= Seq::<OutcomeView>::empty());
                        assert(!has_failed(closing, id));
                    } else {
                        assert(closing == retries_view(
                            new_rem,
                            (run.attempts() + 1) as u32,
                            max_attempts,
                        ));
                        assert(!has_failed(closing, id));
                    }
                }
            }
            // No cancellations.
            assert forall|id: Seq<char>| !has_cancelled(v_now, id) by {
                assert(!has_cancelled(v_before, id));
                assert(!has_cancelled(succ, id));
                if run.attempts() == max_attempts && new_rem.len() > 0 {
                    assert(!has_cancelled(closing, id));
                } else if new_rem.len() == 0 {
                    assert(closing =~= Seq::<OutcomeView>::empty());
                    assert(!has_cancelled(closing, id));
                } else {
                    assert(!has_cancelled(closing, id));
                }
            }
        }
    }
    let used = run.attempts_made();
    proof {
        let v = outcome_views(all_events@);
        assert forall|id: Seq<char>|
            has_failed(v, id) <==> reqv.contains(id) && forall|k: int|
                0 <= k < max_attempts ==> !(#[trigger] confv[k]).contains(id) by {
            lemma_rem_after_contains(reqv, confv, used as int, id);
            if has_failed(v, id) {
                assert(run.remaining_ids().contains(id));
                assert(reqv.contains(id));
                assert(run.remaining_ids().len() > 0);
                assert(used == max_attempts);
            }
            if reqv.contains(id) && (forall|k: int|
                0 <= k < max_attempts ==> !(#[trigger] confv[k]).contains(id)) {
                assert(forall|k: int| 0 <= k < used ==> !(#[trigger] confv[k]).contains(id));
                assert(run.remaining_ids().contains(id));
                assert(run.remaining_ids().len() > 0);
            }
        }
        assert forall|id: Seq<char>| has_failed(outcome_views(all_events@), id) implies used
            == max_attempts by {
            assert(run.remaining_ids().contains(id));
            assert(run.remaining_ids().len() > 0);
        }
    }
    (all_events, used)
}

proof fn lemma_pow2_bound(e: int)
    requires
        e <= 5,
    ensures
        pow2(e) <= 32,
{
    assert(pow2(0) == 1);
    assert(pow2(1) == 2);
    assert(pow2(2) == 4);
    assert(pow2(3) == 8);
    assert(pow2(4) == 16);
    assert(pow2(5) == 32);
    if e <= 0 {
    } else if e == 1 {
    } else if e == 2 {
    } else if e == 3 {
    } else if e == 4 {
    } else {
        assert(e == 5);
    }
}

proof fn lemma_pow2_five()
    ensures
        pow2(5) == 32,
{
    assert(pow2(0) == 1);
    assert(pow2(1) == 2);
    assert(pow2(2) == 4);
    assert(pow2(3) == 8);
    assert(pow2(4) == 16);
    assert(pow2(5) == 32);
}

} // verus!
