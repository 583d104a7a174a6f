//! What every phase task does with view-change events: a view at or below
//! the current one is stale and ignored; a higher one advances the current
//! view.  The laws here say that under this rule a task's current view never
//! regresses and the accepted views strictly increase.

use vstd::prelude::*;

verus! {

/// The current view after one view-change event.
pub open spec fn view_step(cur: u64, v: u64) -> u64 {
    if v > cur {
        v
    } else {
        cur
    }
}

/// Whether the event at `k` is accepted (non-stale) in a run of view-change
/// events starting from `cur`.
pub open spec fn view_accepted(cur: u64, views: Seq<u64>, k: int) -> bool {
    views[k] > view_fold(cur, views.take(k))
}

/// The current view after a run of view-change events.
pub open spec fn view_fold(cur: u64, views: Seq<u64>) -> u64
    decreases views.len(),
{
    if views.len() == 0 {
        cur
    } else {
        view_fold(view_step(cur, views[0]), views.drop_first())
    }
}

/// The current view never decreases over a run.
pub proof fn lemma_view_fold_monotonic(cur: u64, views: Seq<u64>)
    ensures
        view_fold(cur, views) >= cur,
    decreases views.len(),
{
    if views.len() > 0 {
        lemma_view_fold_monotonic(view_step(cur, views[0]), views.drop_first());
    }
}

/// Folding a longer prefix never loses ground.
pub proof fn lemma_view_fold_prefix(cur: u64, views: Seq<u64>, i: int, j: int)
    requires
        0 <= i <= j <= views.len(),
    ensures
        view_fold(cur, views.take(j)) >= view_fold(cur, views.take(i)),
    decreases j - i,
{
    if i < j {
        lemma_view_fold_prefix(cur, views, i, j - 1);
        lemma_view_fold_snoc(cur, views.take(j));
        assert(views.take(j).take(j - 1) =~= views.take(j - 1));
    }
}

/// Folding a run is folding all but the last event, then stepping once.
pub proof fn lemma_view_fold_snoc(cur: u64, views: Seq<u64>)
    requires
        views.len() > 0,
    ensures
        view_fold(cur, views) == view_step(view_fold(cur, views.take(views.len() - 1)), views.last()),
    decreases views.len(),
{
    if views.len() == 1 {
        assert(views.take(0) =~= Seq::<u64>::empty());
        assert(views.drop_first() =~= Seq::<u64>::empty());
        assert(view_fold(view_step(cur, views[0]), views.drop_first()) == view_step(cur, views[0]));
        assert(view_fold(cur, views) == view_step(cur, views[0]));
        assert(view_fold(cur, views.take(views.len() - 1)) == cur);
        assert(views.last() == views[0]);
    } else {
        let cur2 = view_step(cur, views[0]);
        assert(view_fold(cur, views) == view_fold(cur2, views.drop_first()));
        lemma_view_fold_snoc(cur2, views.drop_first());
        assert(views.drop_first().take(views.len() - 2) =~= views.take(views.len() - 1).drop_first());
        assert(views.drop_first().last() == views.last());
        let front = views.take(views.len() - 1);
        assert(front.len() > 0 && front[0] == views[0]);
        assert(view_fold(cur, front) == view_fold(view_step(cur, front[0]), front.drop_first()));
    }
}

/// The accepted (non-stale) views of a run are strictly increasing: an event
/// accepted later names a strictly higher view than one accepted earlier.
pub proof fn lemma_accepted_views_increase(cur: u64, views: Seq<u64>, i: int, j: int)
    requires
        0 <= i < j < views.len(),
        view_accepted(cur, views, i),
        view_accepted(cur, views, j),
    ensures
        views[i] < views[j],
{
    lemma_view_fold_snoc(cur, views.take(i + 1));
    assert(views.take(i + 1).take(i) =~= views.take(i));
    assert(views.take(i + 1).last() == views[i]);
    assert(view_fold(cur, views.take(i + 1)) == views[i]);
    lemma_view_fold_prefix(cur, views, i + 1, j);
}

} // verus!
