//! The activity log of the refresh pipeline: a bounded ring of per-feed
//! outcomes, newest first when read.
use vstd::prelude::*;
use crate::models::{opt_clone, opt_view};

verus! {

/// How many events the log keeps.
pub const RING_CAPACITY: usize = 500;

/// Why a feed was not fetched.
#[derive(Debug, Clone, Copy, PartialEq, Eq, Structural)]
pub enum SkipReason {
    DisallowedHost,
    CacheControl,
    Throttled,
}

/// The outcome of one feed's refresh.
#[derive(Debug, Clone, PartialEq, Eq)]
pub enum ActivityKind {
    Skipped(SkipReason),
    NotModified,
    HttpError { status: u16 },
    NetworkError { detail: String },
    ParseError { detail: String },
    DbError { detail: String },
    Success { new: usize, updated: usize, deleted: usize },
}

pub enum KindView {
    Skipped(SkipReason),
    NotModified,
    HttpError { status: u16 },
    NetworkError { detail: Seq<char> },
    ParseError { detail: Seq<char> },
    DbError { detail: Seq<char> },
    Success { new: usize, updated: usize, deleted: usize },
}

impl View for ActivityKind {
    type V = KindView;

    open spec fn view(&self) -> KindView {
        match self {
            ActivityKind::Skipped(r) => KindView::Skipped(*r),
            ActivityKind::NotModified => KindView::NotModified,
            ActivityKind::HttpError { status } => KindView::HttpError { status: *status },
            ActivityKind::NetworkError { detail } => KindView::NetworkError { detail: detail@ },
            ActivityKind::ParseError { detail } => KindView::ParseError { detail: detail@ },
            ActivityKind::DbError { detail } => KindView::DbError { detail: detail@ },
            ActivityKind::Success { new, updated, deleted } => KindView::Success {
                new: *new,
                updated: *updated,
                deleted: *deleted,
            },
        }
    }
}

impl ActivityKind {
    pub fn duplicate(&self) -> (r: ActivityKind)
        ensures
            r@ == self@,
    {
        match self {
            ActivityKind::Skipped(r) => ActivityKind::Skipped(*r),
            ActivityKind::NotModified => ActivityKind::NotModified,
            ActivityKind::HttpError { status } => ActivityKind::HttpError { status: *status },
            ActivityKind::NetworkError { detail } => ActivityKind::NetworkError { detail: detail.clone() },
            ActivityKind::ParseError { detail } => ActivityKind::ParseError { detail: detail.clone() },
            ActivityKind::DbError { detail } => ActivityKind::DbError { detail: detail.clone() },
            ActivityKind::Success { new, updated, deleted } => ActivityKind::Success {
                new: *new,
                updated: *updated,
                deleted: *deleted,
            },
        }
    }
}

/// One logged outcome; `at` is its time in milliseconds since the Unix
/// epoch.
#[derive(Debug, Clone)]
pub struct ActivityEvent {
    pub at: i64,
    pub feed_id: String,
    pub feed_url: String,
    pub feed_name: Option<String>,
    pub kind: ActivityKind,
}

pub struct EventView {
    pub at: i64,
    pub feed_id: Seq<char>,
    pub feed_url: Seq<char>,
    pub feed_name: Option<Seq<char>>,
    pub kind: KindView,
}

impl View for ActivityEvent {
    type V = EventView;

    open spec fn view(&self) -> EventView {
        EventView {
            at: self.at,
            feed_id: self.feed_id@,
            feed_url: self.feed_url@,
            feed_name: opt_view(self.feed_name),
            kind: self.kind@,
        }
    }
}

impl ActivityEvent {
    pub fn duplicate(&self) -> (r: ActivityEvent)
        ensures
            r@ == self@,
    {
        ActivityEvent {
            at: self.at,
            feed_id: self.feed_id.clone(),
            feed_url: self.feed_url.clone(),
            feed_name: opt_clone(&self.feed_name),
            kind: self.kind.duplicate(),
        }
    }
}

pub open spec fn events_view(s: Seq<ActivityEvent>) -> Seq<EventView> {
    s.map_values(|e: ActivityEvent| e@)
}

/// The ring of recent events, oldest first, never more than
/// `RING_CAPACITY` of them.
pub struct ActivityLog {
    events: Vec<ActivityEvent>,
}

impl ActivityLog {
    /// The events held, oldest first.
    pub closed spec fn events(&self) -> Seq<EventView> {
        events_view(self.events@)
    }

    /// The capacity bound holds.
    pub closed spec fn wf(&self) -> bool {
        self.events@.len() <= RING_CAPACITY
    }

    /// A well-formed log holds at most `RING_CAPACITY` events.
    pub proof fn lemma_wf_bounds(&self)
        requires
            self.wf(),
        ensures
            self.events().len() <= RING_CAPACITY,
    {
    }

    /// An empty log.
    pub fn new() -> (l: ActivityLog)
        ensures
            l.wf(),
            l.events() == Seq::<EventView>::empty(),
    {
        let l = ActivityLog { events: Vec::new() };
        assert(events_view(l.events@) =~= Seq::<EventView>::empty());
        l
    }

    /// Records `ev`; at capacity the oldest event is dropped first.
    pub fn push(&mut self, ev: ActivityEvent)
        requires
            old(self).wf(),
        ensures
            final(self).wf(),
            final(self).events().len() == (if old(self).events().len() == RING_CAPACITY {
                RING_CAPACITY as int
            } else {
                old(self).events().len() + 1int
            }),
            final(self).events().len() <= RING_CAPACITY,
            final(self).events() == (if old(self).events().len() == RING_CAPACITY {
                old(self).events().drop_first()
            } else {
                old(self).events()
            }).push(ev@),
    {
        let ghost before = self.events@;
        if self.events.len() == RING_CAPACITY {
            let _oldest = self.events.remove(0);
        }
        let ghost mid = self.events@;
        self.events.push(ev);
        proof {
            if before.len() == RING_CAPACITY {
                assert(mid =~= before.drop_first());
                assert(events_view(mid) =~= events_view(before).drop_first());
            }
            assert(events_view(self.events@) =~= events_view(mid).push(self.events@.last()@));
        }
    }

    /// The events, most recent first.
    pub fn snapshot(&self) -> (r: Vec<ActivityEvent>)
        ensures
            events_view(r@) == self.events().reverse(),
    {
        let mut r: Vec<ActivityEvent> = Vec::new();
        let n = self.events.len();
        let mut i: usize = n;
        while i > 0
            invariant
                i <= n,
                n == self.events@.len(),
                r@.len() == n - i,
                forall|k: int| 0 <= k < n - i ==> #[trigger] r@[k]@ == self.events@[n - 1 - k]@,
            decreases i,
        {
            i -= 1;
            r.push(self.events[i].duplicate());
        }
        assert(events_view(r@) =~= events_view(self.events@).reverse());
        r
    }

    /// Drops every event.
    pub fn clear(&mut self)
        ensures
            final(self).wf(),
            final(self).events() == Seq::<EventView>::empty(),
    {
        self.events.clear();
        assert(events_view(self.events@) =~= Seq::<EventView>::empty());
    }

    /// The number of events held.
    pub fn len(&self) -> (n: usize)
        ensures
            n == self.events().len(),
    {
        self.events.len()
    }

    /// Whether no event is held.
    pub fn is_empty(&self) -> (b: bool)
        ensures
            b == (self.events().len() == 0),
    {
        self.events.len() == 0
    }
}

} // verus!
