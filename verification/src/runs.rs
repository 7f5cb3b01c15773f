//! Runs of a crawl: what holds of every state that a crawl can reach, in
//! whatever order its fetches are launched and end.

use crate::model::lemma_every_fetch_is_counted;
use crate::model::lemma_launched_within_depth;
use crate::model::lemma_settled_within_depth;
use crate::model::started;
use crate::model::CrawlView;
use crate::model::PageEventView;
use crate::model::TaskView;
use vstd::prelude::*;

verus! {

/// One step of a crawl.
pub enum StepView {
    /// The head of the queue is launched.
    Launch,
    /// The fetch `task` ends with `page`.
    End { task: TaskView, page: PageEventView },
}

/// Whether a step can be taken: a launch needs a queued fetch, an end needs
/// its fetch to be under way.
pub open spec fn can_step(state: CrawlView, step: StepView) -> bool {
    match step {
        StepView::Launch => state.pending.len() > 0,
        StepView::End { task, page } => state.awaits(task),
    }
}

/// The state after one step.
pub open spec fn after_step(state: CrawlView, step: StepView) -> CrawlView {
    match step {
        StepView::Launch => state.launched(),
        StepView::End { task, page } => state.settled(task, page),
    }
}

/// The state after a run of steps.
pub open spec fn after_run(state: CrawlView, steps: Seq<StepView>) -> CrawlView
    decreases steps.len(),
{
    if steps.len() == 0 {
        state
    } else {
        after_step(after_run(state, steps.drop_last()), steps.last())
    }
}

/// Whether a run of steps can be taken, each from the state that the steps
/// before it lead to.
pub open spec fn can_run(state: CrawlView, steps: Seq<StepView>) -> bool
    decreases steps.len(),
{
    steps.len() == 0 || (can_run(state, steps.drop_last()) && can_step(
        after_run(state, steps.drop_last()),
        steps.last(),
    ))
}

/// The number of launches in a run.
pub open spec fn launches(steps: Seq<StepView>) -> nat
    decreases steps.len(),
{
    if steps.len() == 0 {
        0
    } else if steps.last() is Launch {
        launches(steps.drop_last()) + 1
    } else {
        launches(steps.drop_last())
    }
}

/// The number of fetches that end in a run.
pub open spec fn ends(steps: Seq<StepView>) -> nat
    decreases steps.len(),
{
    if steps.len() == 0 {
        0
    } else if steps.last() is End {
        ends(steps.drop_last()) + 1
    } else {
        ends(steps.drop_last())
    }
}

/// A run that can be taken can be taken up to any of its steps.
pub proof fn lemma_prefix_can_run(state: CrawlView, steps: Seq<StepView>, k: int)
    requires
        can_run(state, steps),
        0 <= k <= steps.len(),
    ensures
        can_run(state, steps.take(k)),
        k < steps.len() ==> can_step(after_run(state, steps.take(k)), steps[k]),
    decreases steps.len(),
{
    if k == steps.len() {
        assert(steps.take(k) =~= steps);
    } else {
        let front = steps.drop_last();
        if k == steps.len() - 1 {
            assert(steps.take(k) =~= front);
        } else {
            lemma_prefix_can_run(state, front, k);
            assert(front.take(k) =~= steps.take(k));
        }
    }
}

/// No run leads a crawl out of its depth bound.
pub proof fn lemma_run_within_depth(state: CrawlView, steps: Seq<StepView>)
    requires
        state.within_depth(),
        can_run(state, steps),
    ensures
        after_run(state, steps).within_depth(),
        after_run(state, steps).start_depth == state.start_depth,
        after_run(state, steps).max_depth == state.max_depth,
    decreases steps.len(),
{
    if steps.len() > 0 {
        let before = after_run(state, steps.drop_last());
        lemma_run_within_depth(state, steps.drop_last());
        match steps.last() {
            StepView::Launch => lemma_launched_within_depth(before),
            StepView::End { task, page } => lemma_settled_within_depth(before, task, page),
        }
    }
}

/// In every run each fetch that ends leaves one record, and the fetches
/// under way are those launched and not ended.
pub proof fn lemma_run_counts(state: CrawlView, steps: Seq<StepView>)
    requires
        can_run(state, steps),
    ensures
        launches(steps) + ends(steps) == steps.len(),
        after_run(state, steps).visits.len() == state.visits.len() + ends(steps),
        after_run(state, steps).in_flight.len() + ends(steps) == state.in_flight.len() + launches(
            steps,
        ),
    decreases steps.len(),
{
    if steps.len() > 0 {
        let before = after_run(state, steps.drop_last());
        lemma_run_counts(state, steps.drop_last());
        match steps.last() {
            StepView::Launch => {
                lemma_every_fetch_is_counted(before, before.pending.first(), PageEventView::Oversized);
            },
            StepView::End { task, page } => {
                lemma_every_fetch_is_counted(before, task, page);
            },
        }
    }
}

/// Every fetch that a crawl launches, at whatever point of whatever run,
/// lies between the starting depth and the depth bound.
pub proof fn lemma_every_launch_within_depth(
    frontier: Seq<Seq<char>>,
    current: u8,
    max: u8,
    steps: Seq<StepView>,
    k: int,
)
    requires
        can_run(started(frontier, current, max), steps),
        0 <= k < steps.len(),
        steps[k] is Launch,
    ensures
        after_run(started(frontier, current, max), steps.take(k)).pending.len() > 0,
        current <= after_run(started(frontier, current, max), steps.take(k)).pending.first().depth
            <= max,
{
    let start = started(frontier, current, max);
    lemma_prefix_can_run(start, steps, k);
    lemma_run_within_depth(start, steps.take(k));
    let before = after_run(start, steps.take(k));
    assert(before.allows(before.pending[0].depth));
}

/// When a crawl is complete, every fetch that it launched has ended and has
/// its record, and every record lies within the depth bound.
pub proof fn lemma_done_means_all_ended(
    frontier: Seq<Seq<char>>,
    current: u8,
    max: u8,
    steps: Seq<StepView>,
)
    requires
        can_run(started(frontier, current, max), steps),
        after_run(started(frontier, current, max), steps).is_done(),
    ensures
        launches(steps) == ends(steps),
        after_run(started(frontier, current, max), steps).visits.len() == launches(steps),
        forall|i: int|
            0 <= i < after_run(started(frontier, current, max), steps).visits.len() ==> current
                <= (#[trigger] after_run(started(frontier, current, max), steps).visits[i]).depth
                <= max,
{
    let start = started(frontier, current, max);
    lemma_run_counts(start, steps);
    lemma_run_within_depth(start, steps);
    let last = after_run(start, steps);
    assert forall|i: int| 0 <= i < last.visits.len() implies current <= (
    #[trigger] last.visits[i]).depth <= max by {
        assert(last.allows(last.visits[i].depth));
    }
}

/// A crawl that starts past its depth bound can take no step at all: it
/// makes no fetch, whatever its frontier.
pub proof fn lemma_no_step_past_bound(
    frontier: Seq<Seq<char>>,
    current: u8,
    max: u8,
    steps: Seq<StepView>,
)
    requires
        current > max,
        can_run(started(frontier, current, max), steps),
    ensures
        steps.len() == 0,
        launches(steps) == 0,
    decreases steps.len(),
{
    if steps.len() > 0 {
        lemma_no_step_past_bound(frontier, current, max, steps.drop_last());
        assert(after_run(started(frontier, current, max), steps.drop_last()) == started(
            frontier,
            current,
            max,
        ));
    }
}

/// A crawl of an empty frontier can take no step either.
pub proof fn lemma_no_step_without_frontier(current: u8, max: u8, steps: Seq<StepView>)
    requires
        can_run(started(Seq::empty(), current, max), steps),
    ensures
        steps.len() == 0,
    decreases steps.len(),
{
    if steps.len() > 0 {
        lemma_no_step_without_frontier(current, max, steps.drop_last());
        assert(after_run(started(Seq::empty(), current, max), steps.drop_last()) == started(
            Seq::empty(),
            current,
            max,
        ));
    }
}

} // verus!
