//! The crawl as a mathematical state machine.
//!
//! A crawl is a queue of fetches still to launch, the fetches under way, and
//! the record of those that ended. Launching moves the head of the queue
//! under way; a fetch that ends leaves a record and, if its page was read and
//! the depth bound allows, queues the page's links one level deeper. Nothing
//! here fixes the order in which fetches end.

use vstd::prelude::*;

verus! {

/// One fetch to make: a URL and the depth at which it was found.
pub struct TaskView {
    pub url: Seq<char>,
    pub depth: u8,
}

/// What became of one page, once its links are resolved.
pub enum PageEventView {
    /// The fetch failed, for this reason.
    Failed(Seq<char>),
    /// The body was too long to be read for links.
    Oversized,
    /// The body was read: it held `links` raw links, and `urls` are those of
    /// them that resolved, in document order.
    Fetched { links: usize, urls: Seq<Seq<char>> },
}

/// How a recorded fetch ended.
pub enum VisitResultView {
    Fetched { links: usize, resolved: usize },
    Failed { reason: Seq<char> },
    Oversized,
}

/// The record of one fetch that ended.
pub struct VisitView {
    pub url: Seq<char>,
    pub depth: u8,
    pub result: VisitResultView,
}

/// The state of a crawl.
pub struct CrawlView {
    /// The depth of the first frontier.
    pub start_depth: u8,
    /// The greatest depth at which a page is fetched.
    pub max_depth: u8,
    /// The fetches not launched yet, next first.
    pub pending: Seq<TaskView>,
    /// The fetches launched and not ended.
    pub in_flight: Seq<TaskView>,
    /// The fetches that ended, in the order in which they did.
    pub visits: Seq<VisitView>,
}

/// One fetch per URL, all at one depth, in the order of the URLs.
pub open spec fn tasks_at(urls: Seq<Seq<char>>, depth: u8) -> Seq<TaskView> {
    urls.map_values(|url: Seq<char>| TaskView { url, depth })
}

/// The first place of `task` in `tasks`, or their number if it is not there.
pub open spec fn position(tasks: Seq<TaskView>, task: TaskView) -> int
    decreases tasks.len(),
{
    if tasks.len() == 0 {
        0
    } else if tasks.first() == task {
        0
    } else {
        1 + position(tasks.drop_first(), task)
    }
}

/// The record that a fetch leaves when it ends.
pub open spec fn visit_of(task: TaskView, page: PageEventView) -> VisitView {
    VisitView {
        url: task.url,
        depth: task.depth,
        result: match page {
            PageEventView::Failed(reason) => VisitResultView::Failed { reason },
            PageEventView::Oversized => VisitResultView::Oversized,
            PageEventView::Fetched { links, urls } => VisitResultView::Fetched {
                links,
                resolved: urls.len() as usize,
            },
        },
    }
}

/// The fetches that a fetch queues when it ends: one per resolved link of its
/// page, one level deeper, and none from a page at the depth bound.
pub open spec fn children(task: TaskView, page: PageEventView, max_depth: u8) -> Seq<TaskView> {
    match page {
        PageEventView::Fetched { links, urls } => if task.depth < max_depth {
            tasks_at(urls, (task.depth + 1) as u8)
        } else {
            Seq::empty()
        },
        _ => Seq::empty(),
    }
}

/// The crawl of `frontier` from depth `current` with bound `max`, before any
/// fetch: past the bound nothing is queued.
pub open spec fn started(frontier: Seq<Seq<char>>, current: u8, max: u8) -> CrawlView {
    CrawlView {
        start_depth: current,
        max_depth: max,
        pending: if current <= max {
            tasks_at(frontier, current)
        } else {
            Seq::empty()
        },
        in_flight: Seq::empty(),
        visits: Seq::empty(),
    }
}

impl CrawlView {
    /// Whether a depth lies between the first frontier's and the bound.
    pub open spec fn allows(self, depth: u8) -> bool {
        self.start_depth <= depth <= self.max_depth
    }

    /// Every fetch, queued, under way or ended, lies within the depth bound.
    pub open spec fn within_depth(self) -> bool {
        &&& forall|i: int| 0 <= i < self.pending.len() ==> self.allows(#[trigger] self.pending[i].depth)
        &&& forall|i: int|
            0 <= i < self.in_flight.len() ==> self.allows(#[trigger] self.in_flight[i].depth)
        &&& forall|i: int| 0 <= i < self.visits.len() ==> self.allows(#[trigger] self.visits[i].depth)
    }

    /// The crawl is complete: nothing is queued and nothing is under way.
    pub open spec fn is_done(self) -> bool {
        self.pending.len() == 0 && self.in_flight.len() == 0
    }

    /// Whether `task` is under way.
    pub open spec fn awaits(self, task: TaskView) -> bool {
        self.in_flight.contains(task)
    }

    /// The state after the head of the queue is launched.
    pub open spec fn launched(self) -> CrawlView
        recommends
            self.pending.len() > 0,
    {
        CrawlView {
            pending: self.pending.drop_first(),
            in_flight: self.in_flight.push(self.pending.first()),
            ..self
        }
    }

    /// The state after `task`, which is under way, ends with `page`.
    pub open spec fn settled(self, task: TaskView, page: PageEventView) -> CrawlView
        recommends
            self.awaits(task),
    {
        CrawlView {
            pending: self.pending + children(task, page, self.max_depth),
            in_flight: self.in_flight.remove(position(self.in_flight, task)),
            visits: self.visits.push(visit_of(task, page)),
            ..self
        }
    }
}

/// Where `position` points, the task stands, and nowhere before.
pub proof fn lemma_position(tasks: Seq<TaskView>, task: TaskView)
    ensures
        0 <= position(tasks, task) <= tasks.len(),
        forall|j: int| 0 <= j < position(tasks, task) ==> tasks[j] != task,
        tasks.contains(task) <==> position(tasks, task) < tasks.len(),
        position(tasks, task) < tasks.len() ==> tasks[position(tasks, task)] == task,
    decreases tasks.len(),
{
    if tasks.len() > 0 && tasks.first() != task {
        let rest = tasks.drop_first();
        lemma_position(rest, task);
        assert forall|j: int| 0 <= j < position(tasks, task) implies tasks[j] != task by {
            if j > 0 {
                assert(tasks[j] == rest[j - 1]);
            }
        }
        if tasks.contains(task) {
            let k = choose|k: int| 0 <= k < tasks.len() && tasks[k] == task;
            assert(rest[k - 1] == task);
        }
        if position(rest, task) < rest.len() {
            assert(tasks[position(rest, task) + 1] == rest[position(rest, task)]);
        }
    } else if tasks.len() > 0 {
        assert(tasks[0] == task);
    }
}

/// The first place at which a task stands is its position.
pub proof fn lemma_first_match_is_position(tasks: Seq<TaskView>, task: TaskView, i: int)
    requires
        0 <= i < tasks.len(),
        tasks[i] == task,
        forall|j: int| 0 <= j < i ==> tasks[j] != task,
    ensures
        position(tasks, task) == i,
        tasks.contains(task),
{
    lemma_position(tasks, task);
}

/// A crawl that has just started keeps within its depth bound.
pub proof fn lemma_started_within_depth(frontier: Seq<Seq<char>>, current: u8, max: u8)
    ensures
        started(frontier, current, max).within_depth(),
{
}

/// Launching a fetch keeps the crawl within its depth bound.
pub proof fn lemma_launched_within_depth(state: CrawlView)
    requires
        state.within_depth(),
        state.pending.len() > 0,
    ensures
        state.launched().within_depth(),
{
    let next = state.launched();
    assert forall|i: int| 0 <= i < next.pending.len() implies next.allows(
        #[trigger] next.pending[i].depth,
    ) by {
        assert(next.pending[i] == state.pending[i + 1]);
    }
    assert forall|i: int| 0 <= i < next.in_flight.len() implies next.allows(
        #[trigger] next.in_flight[i].depth,
    ) by {
        if i < state.in_flight.len() {
            assert(next.in_flight[i] == state.in_flight[i]);
        } else {
            assert(next.in_flight[i] == state.pending[0]);
        }
    }
}

/// The end of a fetch keeps the crawl within its depth bound: no link is
/// ever queued deeper than the bound.
pub proof fn lemma_settled_within_depth(state: CrawlView, task: TaskView, page: PageEventView)
    requires
        state.within_depth(),
        state.awaits(task),
    ensures
        state.settled(task, page).within_depth(),
{
    let next = state.settled(task, page);
    let at = position(state.in_flight, task);
    lemma_position(state.in_flight, task);
    let added = children(task, page, state.max_depth);
    assert(state.allows(state.in_flight[at].depth));
    assert forall|i: int| 0 <= i < next.pending.len() implies next.allows(
        #[trigger] next.pending[i].depth,
    ) by {
        if i < state.pending.len() {
            assert(next.pending[i] == state.pending[i]);
        } else {
            assert(next.pending[i] == added[i - state.pending.len()]);
        }
    }
    state.in_flight.remove_ensures(at);
    assert forall|i: int| 0 <= i < next.in_flight.len() implies next.allows(
        #[trigger] next.in_flight[i].depth,
    ) by {
        if i < at {
            assert(next.in_flight[i] == state.in_flight[i]);
        } else {
            assert(next.in_flight[i] == state.in_flight[i + 1]);
        }
    }
    assert forall|i: int| 0 <= i < next.visits.len() implies next.allows(
        #[trigger] next.visits[i].depth,
    ) by {
        if i < state.visits.len() {
            assert(next.visits[i] == state.visits[i]);
        }
    }
}

/// A crawl that starts past its depth bound is complete at once, whatever
/// its frontier: it makes no fetch.
pub proof fn lemma_past_bound_is_done(frontier: Seq<Seq<char>>, current: u8, max: u8)
    requires
        current > max,
    ensures
        started(frontier, current, max).is_done(),
        started(frontier, current, max).visits.len() == 0,
{
}

/// A crawl of an empty frontier is complete at once.
pub proof fn lemma_empty_frontier_is_done(current: u8, max: u8)
    ensures
        started(Seq::empty(), current, max).is_done(),
{
}

/// A crawl within its bound queues its whole frontier, in order, at the
/// starting depth.
pub proof fn lemma_started_queues_frontier(frontier: Seq<Seq<char>>, current: u8, max: u8)
    requires
        current <= max,
    ensures
        started(frontier, current, max).pending.len() == frontier.len(),
        forall|i: int|
            0 <= i < frontier.len() ==> #[trigger] started(frontier, current, max).pending[i]
                == (TaskView { url: frontier[i], depth: current }),
{
}

/// A page fetched at the depth bound queues nothing, whatever it links to.
pub proof fn lemma_bound_stops_descent(state: CrawlView, task: TaskView, page: PageEventView)
    requires
        task.depth >= state.max_depth,
    ensures
        state.settled(task, page).pending == state.pending,
{
    assert(state.pending + Seq::<TaskView>::empty() =~= state.pending);
}

/// A fetch that fails, or whose page is too long, touches nothing but
/// itself: the queue stays, the other fetches under way stay, and one record
/// is added.
pub proof fn lemma_failure_is_isolated(state: CrawlView, task: TaskView, page: PageEventView)
    requires
        state.awaits(task),
        !(page is Fetched),
    ensures
        state.settled(task, page).pending == state.pending,
        state.settled(task, page).visits == state.visits.push(visit_of(task, page)),
        state.settled(task, page).in_flight.len() == state.in_flight.len() - 1,
        state.settled(task, page).in_flight.to_multiset() == state.in_flight.to_multiset().remove(
            task,
        ),
{
    assert(state.pending + Seq::<TaskView>::empty() =~= state.pending);
    lemma_position(state.in_flight, task);
    let at = position(state.in_flight, task);
    state.in_flight.remove_ensures(at);
    vstd::seq_lib::to_multiset_remove(state.in_flight, at);
}

/// Each fetch that ends adds exactly one record and leaves one fetch fewer
/// under way; each launch moves exactly one fetch from the queue under way.
pub proof fn lemma_every_fetch_is_counted(state: CrawlView, task: TaskView, page: PageEventView)
    ensures
        state.pending.len() > 0 ==> {
            &&& state.launched().pending.len() == state.pending.len() - 1
            &&& state.launched().in_flight.len() == state.in_flight.len() + 1
            &&& state.launched().visits == state.visits
        },
        state.awaits(task) ==> {
            &&& state.settled(task, page).visits.len() == state.visits.len() + 1
            &&& state.settled(task, page).in_flight.len() == state.in_flight.len() - 1
            &&& state.settled(task, page).pending.len() == state.pending.len() + children(
                task,
                page,
                state.max_depth,
            ).len()
        },
{
    if state.awaits(task) {
        lemma_position(state.in_flight, task);
        state.in_flight.remove_ensures(position(state.in_flight, task));
    }
}

/// The order in which two fetches end does not matter: either way the same
/// fetches stay under way, the same fetches are queued and the same records
/// are kept, up to their order.
pub proof fn lemma_completion_order(
    state: CrawlView,
    a: TaskView,
    page_a: PageEventView,
    b: TaskView,
    page_b: PageEventView,
)
    requires
        state.awaits(a),
        state.awaits(b),
        state.settled(a, page_a).awaits(b),
        state.settled(b, page_b).awaits(a),
    ensures
        ({
            let first = state.settled(a, page_a).settled(b, page_b);
            let second = state.settled(b, page_b).settled(a, page_a);
            &&& first.pending.to_multiset() == second.pending.to_multiset()
            &&& first.in_flight.to_multiset() == second.in_flight.to_multiset()
            &&& first.visits.to_multiset() == second.visits.to_multiset()
            &&& first.is_done() == second.is_done()
        }),
{
    broadcast use vstd::multiset::group_multiset_axioms;

    let after_a = state.settled(a, page_a);
    let after_b = state.settled(b, page_b);
    let first = after_a.settled(b, page_b);
    let second = after_b.settled(a, page_a);
    let from_a = children(a, page_a, state.max_depth);
    let from_b = children(b, page_b, state.max_depth);

    vstd::seq_lib::lemma_multiset_commutative(state.pending, from_a);
    vstd::seq_lib::lemma_multiset_commutative(state.pending + from_a, from_b);
    vstd::seq_lib::lemma_multiset_commutative(state.pending, from_b);
    vstd::seq_lib::lemma_multiset_commutative(state.pending + from_b, from_a);
    assert(first.pending.to_multiset() =~= second.pending.to_multiset());

    lemma_position(state.in_flight, a);
    lemma_position(state.in_flight, b);
    lemma_position(after_a.in_flight, b);
    lemma_position(after_b.in_flight, a);
    vstd::seq_lib::to_multiset_remove(state.in_flight, position(state.in_flight, a));
    vstd::seq_lib::to_multiset_remove(state.in_flight, position(state.in_flight, b));
    vstd::seq_lib::to_multiset_remove(after_a.in_flight, position(after_a.in_flight, b));
    vstd::seq_lib::to_multiset_remove(after_b.in_flight, position(after_b.in_flight, a));
    assert(first.in_flight.to_multiset() =~= second.in_flight.to_multiset());

    vstd::seq_lib::to_multiset_build(state.visits, visit_of(a, page_a));
    vstd::seq_lib::to_multiset_build(state.visits, visit_of(b, page_b));
    vstd::seq_lib::to_multiset_build(after_a.visits, visit_of(b, page_b));
    vstd::seq_lib::to_multiset_build(after_b.visits, visit_of(a, page_a));
    assert(first.visits.to_multiset() =~= second.visits.to_multiset());

    state.in_flight.remove_ensures(position(state.in_flight, a));
    state.in_flight.remove_ensures(position(state.in_flight, b));
    after_a.in_flight.remove_ensures(position(after_a.in_flight, b));
    after_b.in_flight.remove_ensures(position(after_b.in_flight, a));
}

} // verus!
