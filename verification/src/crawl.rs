//! The crawl driver.
//!
//! The driver decides; it never fetches. A caller takes the fetches that
//! [`Crawl::next_task`] hands out, runs them as it likes, side by side and in
//! any order, and reports how each ended with [`Crawl::complete`]. The crawl
//! is over when [`Crawl::is_done`] says so: then every fetch that was handed
//! out has ended, and so has every fetch that followed from one of them.

use crate::extract::extract_links;
use crate::extract::links_of;
use crate::html::html_tokens;
use crate::html::is_readable;
use crate::model::started;
use crate::model::tasks_at;
use crate::model::lemma_first_match_is_position;
use crate::model::lemma_launched_within_depth;
use crate::model::lemma_position;
use crate::model::lemma_settled_within_depth;
use crate::model::CrawlView;
use crate::model::PageEventView;
use crate::model::TaskView;
use crate::model::VisitResultView;
use crate::model::VisitView;
use crate::resolver::resolve_links;
use crate::resolver::resolved_links;
use crate::resolver::urls_view;
use crate::resolver::PageUrl;
use vstd::prelude::*;

verus! {

/// One fetch to make: a URL and the depth at which it was found.
#[derive(Debug)]
pub struct FetchTask {
    pub url: PageUrl,
    pub depth: u8,
}

impl View for FetchTask {
    type V = TaskView;

    open spec fn view(&self) -> TaskView {
        TaskView { url: self.url@, depth: self.depth }
    }
}

impl Clone for FetchTask {
    fn clone(&self) -> (copy: FetchTask)
        ensures
            copy@ == self@,
    {
        FetchTask { url: self.url.clone(), depth: self.depth }
    }
}

/// What the page fetcher reports for one URL.
#[derive(Debug)]
pub enum FetchOutcome {
    /// The body of the response, as text.
    Body(String),
    /// The fetch failed, for this reason.
    Failed(String),
}

/// The mathematical value of a [`FetchOutcome`].
pub enum FetchOutcomeView {
    Body(Seq<char>),
    Failed(Seq<char>),
}

impl View for FetchOutcome {
    type V = FetchOutcomeView;

    open spec fn view(&self) -> FetchOutcomeView {
        match self {
            FetchOutcome::Body(body) => FetchOutcomeView::Body(body@),
            FetchOutcome::Failed(reason) => FetchOutcomeView::Failed(reason@),
        }
    }
}

/// What became of one page, once its links are resolved.
#[derive(Debug)]
pub enum PageEvent {
    /// The fetch failed, for this reason.
    Failed(String),
    /// The body was too long to be read for links.
    Oversized,
    /// The body was read: it held `links` raw links, and `urls` are those of
    /// them that resolved, in document order.
    Fetched { links: usize, urls: Vec<PageUrl> },
}

impl View for PageEvent {
    type V = PageEventView;

    open spec fn view(&self) -> PageEventView {
        match self {
            PageEvent::Failed(reason) => PageEventView::Failed(reason@),
            PageEvent::Oversized => PageEventView::Oversized,
            PageEvent::Fetched { links, urls } => PageEventView::Fetched {
                links: *links,
                urls: urls_view(urls@),
            },
        }
    }
}

/// How a recorded fetch ended.
#[derive(Debug)]
pub enum VisitResult {
    /// The page was read: it held `links` raw links, of which `resolved`
    /// gave a URL.
    Fetched { links: usize, resolved: usize },
    /// The fetch failed, for this reason.
    Failed { reason: String },
    /// The body was too long to be read for links.
    Oversized,
}

impl View for VisitResult {
    type V = VisitResultView;

    open spec fn view(&self) -> VisitResultView {
        match self {
            VisitResult::Fetched { links, resolved } => VisitResultView::Fetched {
                links: *links,
                resolved: *resolved,
            },
            VisitResult::Failed { reason } => VisitResultView::Failed { reason: reason@ },
            VisitResult::Oversized => VisitResultView::Oversized,
        }
    }
}

/// The record of one fetch that ended.
#[derive(Debug)]
pub struct Visit {
    pub url: PageUrl,
    pub depth: u8,
    pub result: VisitResult,
}

impl View for Visit {
    type V = VisitView;

    open spec fn view(&self) -> VisitView {
        VisitView { url: self.url@, depth: self.depth, result: self.result@ }
    }
}

/// The values of a run of tasks, in order.
pub open spec fn tasks_view(tasks: Seq<FetchTask>) -> Seq<TaskView> {
    tasks.map_values(|t: FetchTask| t@)
}

/// The values of a run of records, in order.
pub open spec fn visits_view(visits: Seq<Visit>) -> Seq<VisitView> {
    visits.map_values(|v: Visit| v@)
}

/// What a fetcher's report comes to for a page at `base`: a failure stays
/// one; a body within the tokenizer's reach gives its links, resolved
/// against `base`; a longer body is set aside.
pub open spec fn observed(base: Seq<char>, outcome: FetchOutcomeView) -> PageEventView {
    match outcome {
        FetchOutcomeView::Failed(reason) => PageEventView::Failed(reason),
        FetchOutcomeView::Body(body) => if crate::html::page_fits(body) {
            PageEventView::Fetched {
                links: links_of(html_tokens(body)).len() as usize,
                urls: resolved_links(base, links_of(html_tokens(body))),
            }
        } else {
            PageEventView::Oversized
        },
    }
}

/// Reads a fetcher's report for the page at `base`: extracts the links of a
/// body and resolves them against `base`, dropping those that do not resolve.
pub fn observe(base: &PageUrl, outcome: FetchOutcome) -> (page: PageEvent)
    ensures
        page@ == observed(base@, outcome@),
{
    match outcome {
        FetchOutcome::Failed(reason) => PageEvent::Failed(reason),
        FetchOutcome::Body(body) => {
            if !is_readable(body.as_str()) {
                PageEvent::Oversized
            } else {
                let raws = extract_links(body.as_str());
                let urls = resolve_links(base, &raws);
                PageEvent::Fetched { links: raws.len(), urls }
            }
        },
    }
}

/// A crawl in progress.
#[derive(Debug)]
pub struct Crawl {
    start_depth: u8,
    max_depth: u8,
    pending: Vec<FetchTask>,
    in_flight: Vec<FetchTask>,
    visits: Vec<Visit>,
}

impl View for Crawl {
    type V = CrawlView;

    closed spec fn view(&self) -> CrawlView {
        CrawlView {
            start_depth: self.start_depth,
            max_depth: self.max_depth,
            pending: tasks_view(self.pending@),
            in_flight: tasks_view(self.in_flight@),
            visits: visits_view(self.visits@),
        }
    }
}

impl Crawl {
    #[verifier::type_invariant]
    spec fn bounded(&self) -> bool {
        self@.within_depth()
    }

    /// Starts the crawl of `frontier` at depth `current` with depth bound
    /// `max`. Past the bound the crawl is complete before any fetch.
    pub fn new(frontier: Vec<PageUrl>, current: u8, max: u8) -> (crawl: Crawl)
        ensures
            crawl@ == started(urls_view(frontier@), current, max),
            crawl@.within_depth(),
    {
        let mut pending: Vec<FetchTask> = Vec::new();
        if current <= max {
            let mut i: usize = 0;
            while i < frontier.len()
                invariant
                    i <= frontier.len(),
                    tasks_view(pending@) == tasks_at(urls_view(frontier@).take(i as int), current),
                decreases frontier.len() - i,
            {
                let ghost before = tasks_view(pending@);
                pending.push(FetchTask { url: frontier[i].clone(), depth: current });
                proof {
                    let urls = urls_view(frontier@);
                    assert(urls.take(i + 1) =~= urls.take(i as int).push(urls[i as int]));
                    assert(tasks_view(pending@) =~= before.push(
                        TaskView { url: urls[i as int], depth: current },
                    ));
                }
                i += 1;
            }
            assert(urls_view(frontier@).take(i as int) =~= urls_view(frontier@));
        }
        let crawl = Crawl {
            start_depth: current,
            max_depth: max,
            pending,
            in_flight: Vec::new(),
            visits: Vec::new(),
        };
        assert(crawl@.pending =~= started(urls_view(frontier@), current, max).pending);
        assert(crawl@.in_flight =~= Seq::<TaskView>::empty());
        assert(crawl@.visits =~= Seq::<VisitView>::empty());
        crawl
    }

    /// The greatest depth at which this crawl fetches a page.
    pub fn max_depth(&self) -> (max: u8)
        ensures
            max == self@.max_depth,
    {
        self.max_depth
    }

    /// The records of the fetches that ended, in the order in which they
    /// did, each within the depth bound.
    pub fn visits(&self) -> (visits: &Vec<Visit>)
        ensures
            visits_view(visits@) == self@.visits,
            self@.within_depth(),
    {
        proof {
            use_type_invariant(self);
        }
        &self.visits
    }

    /// How many fetches are under way.
    pub fn in_flight(&self) -> (count: usize)
        ensures
            count == self@.in_flight.len(),
    {
        self.in_flight.len()
    }

    /// How many fetches are queued.
    pub fn pending(&self) -> (count: usize)
        ensures
            count == self@.pending.len(),
    {
        self.pending.len()
    }

    /// Whether the crawl is complete: every fetch handed out has ended, and
    /// none is left to hand out.
    pub fn is_done(&self) -> (done: bool)
        ensures
            done == self@.is_done(),
    {
        self.pending.len() == 0 && self.in_flight.len() == 0
    }

    /// Hands out the next fetch to launch, in the order in which the fetches
    /// were queued, and counts it as under way. `None` when nothing is
    /// queued.
    pub fn next_task(&mut self) -> (next: Option<FetchTask>)
        ensures
            old(self)@.within_depth(),
            final(self)@.within_depth(),
            match next {
                Some(task) => {
                    &&& old(self)@.pending.len() > 0
                    &&& task@ == old(self)@.pending.first()
                    &&& final(self)@ == old(self)@.launched()
                    &&& final(self)@.allows(task.depth)
                },
                None => old(self)@.pending.len() == 0 && final(self)@ == old(self)@,
            },
    {
        proof {
            use_type_invariant(&*self);
        }
        if self.pending.len() == 0 {
            return None;
        }
        proof {
            lemma_launched_within_depth(self@);
        }
        let ghost before = self@;
        let mut pending: Vec<FetchTask> = Vec::new();
        let mut in_flight: Vec<FetchTask> = Vec::new();
        core::mem::swap(&mut self.pending, &mut pending);
        core::mem::swap(&mut self.in_flight, &mut in_flight);
        let task = pending.remove(0);
        in_flight.push(task.clone());
        proof {
            assert(tasks_view(pending@) =~= before.pending.drop_first());
            assert(tasks_view(in_flight@) =~= before.in_flight.push(before.pending.first()));
            assert(before.pending[0] == task@);
        }
        core::mem::swap(&mut self.pending, &mut pending);
        core::mem::swap(&mut self.in_flight, &mut in_flight);
        assert(self@ == before.launched());
        assert(before.allows(before.pending[0].depth));
        Some(task)
    }

    /// Hands out the next fetch as [`Crawl::next_task`] does, but only while
    /// fewer than `limit` fetches are under way: a caller that passes the
    /// same limit each time never has more than that many to run at once.
    pub fn next_task_within(&mut self, limit: usize) -> (next: Option<FetchTask>)
        ensures
            final(self)@.within_depth(),
            match next {
                Some(task) => {
                    &&& old(self)@.pending.len() > 0
                    &&& old(self)@.in_flight.len() < limit
                    &&& task@ == old(self)@.pending.first()
                    &&& final(self)@ == old(self)@.launched()
                    &&& final(self)@.in_flight.len() <= limit
                    &&& final(self)@.allows(task.depth)
                },
                None => {
                    &&& old(self)@.pending.len() == 0 || old(self)@.in_flight.len() >= limit
                    &&& final(self)@ == old(self)@
                },
            },
    {
        if self.in_flight.len() >= limit {
            proof {
                use_type_invariant(&*self);
            }
            return None;
        }
        self.next_task()
    }

    /// Records how the fetch `task` ended, for a page whose links are
    /// already resolved. If such a fetch is under way, it is taken off, its
    /// record is added, and the page's URLs are queued one level deeper
    /// unless the page stood at the depth bound. If none is, nothing changes
    /// and the answer is `false`.
    pub fn record(&mut self, task: &FetchTask, page: PageEvent) -> (accepted: bool)
        ensures
            accepted == old(self)@.awaits(task@),
            final(self)@ == if accepted {
                old(self)@.settled(task@, page@)
            } else {
                old(self)@
            },
            final(self)@.within_depth(),
    {
        proof {
            use_type_invariant(&*self);
            lemma_position(self@.in_flight, task@);
        }
        let ghost before = self@;
        let mut at: usize = 0;
        while at < self.in_flight.len() && !(self.in_flight[at].depth == task.depth
            && self.in_flight[at].url.same_as(&task.url))
            invariant
                at <= self.in_flight.len(),
                self@ == before,
                forall|j: int| 0 <= j < at ==> before.in_flight[j] != task@,
            decreases self.in_flight.len() - at,
        {
            at += 1;
        }
        if at == self.in_flight.len() {
            return false;
        }
        proof {
            assert(before.in_flight[at as int] == task@);
            lemma_first_match_is_position(before.in_flight, task@, at as int);
            lemma_settled_within_depth(before, task@, page@);
        }
        let mut pending: Vec<FetchTask> = Vec::new();
        let mut in_flight: Vec<FetchTask> = Vec::new();
        let mut visits: Vec<Visit> = Vec::new();
        core::mem::swap(&mut self.pending, &mut pending);
        core::mem::swap(&mut self.in_flight, &mut in_flight);
        core::mem::swap(&mut self.visits, &mut visits);
        let launched = in_flight.remove(at);
        let (result, urls) = match page {
            PageEvent::Failed(reason) => (VisitResult::Failed { reason }, Vec::new()),
            PageEvent::Oversized => (VisitResult::Oversized, Vec::new()),
            PageEvent::Fetched { links, urls } => (
                VisitResult::Fetched { links, resolved: urls.len() },
                urls,
            ),
        };
        let max_depth = self.max_depth;
        if launched.depth < max_depth {
            let deeper: u8 = launched.depth + 1;
            let mut i: usize = 0;
            while i < urls.len()
                invariant
                    i <= urls.len(),
                    tasks_view(pending@) == before.pending + tasks_at(
                        urls_view(urls@).take(i as int),
                        deeper,
                    ),
                decreases urls.len() - i,
            {
                let ghost so_far = tasks_view(pending@);
                pending.push(FetchTask { url: urls[i].clone(), depth: deeper });
                proof {
                    let texts = urls_view(urls@);
                    assert(texts.take(i + 1) =~= texts.take(i as int).push(texts[i as int]));
                    assert(tasks_view(pending@) =~= so_far.push(
                        TaskView { url: texts[i as int], depth: deeper },
                    ));
                    assert(so_far.push(TaskView { url: texts[i as int], depth: deeper })
                        =~= before.pending + tasks_at(texts.take(i + 1), deeper));
                }
                i += 1;
            }
            assert(urls_view(urls@).take(i as int) =~= urls_view(urls@));
        } else {
            assert(before.pending + Seq::<TaskView>::empty() =~= before.pending);
        }
        let ghost recorded = visits_view(visits@);
        visits.push(Visit { url: launched.url, depth: launched.depth, result });
        proof {
            assert(visits_view(visits@) =~= recorded.push(crate::model::visit_of(task@, page@)));
            assert(tasks_view(in_flight@) =~= before.in_flight.remove(at as int));
        }
        let ghost after = before.settled(task@, page@);
        assert(tasks_view(pending@) == after.pending);
        core::mem::swap(&mut self.pending, &mut pending);
        core::mem::swap(&mut self.in_flight, &mut in_flight);
        core::mem::swap(&mut self.visits, &mut visits);
        assert(self@ == after);
        true
    }

    /// Records how the fetch `task` ended, from the fetcher's own report:
    /// the links of a body are extracted and resolved against the task's
    /// URL, and the rest is [`Crawl::record`].
    pub fn complete(&mut self, task: &FetchTask, outcome: FetchOutcome) -> (accepted: bool)
        ensures
            accepted == old(self)@.awaits(task@),
            final(self)@ == if accepted {
                old(self)@.settled(task@, observed(task@.url, outcome@))
            } else {
                old(self)@
            },
            final(self)@.within_depth(),
    {
        let page = observe(&task.url, outcome);
        self.record(task, page)
    }
}

} // verus!
