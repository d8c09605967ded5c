use vstd::prelude::*;
use vstd::multiset::Multiset;
use crate::event::{precedes, Event, TimedEvent, lemma_precedes_total_order};
use crate::time::{utc_now, Timestamp};

verus! {

broadcast use vstd::seq_lib::group_to_multiset_ensures;

/// The pending events of the game, each with its due time.
///
/// Events come out earliest first, in the order of `precedes`, whatever the
/// order in which they went in. Equal events may be queued several times; each
/// queued copy is handed out once.
pub struct EventQueue {
    queue: Vec<TimedEvent>,
}

/// `e` is queued in `q` and comes before every other event of `q`.
pub open spec fn is_earliest(q: Multiset<TimedEvent>, e: TimedEvent) -> bool {
    &&& q.contains(e)
    &&& forall|x: TimedEvent| #[trigger] q.contains(x) ==> precedes(e, x)
}

/// No event of `q` is due at `now`.
pub open spec fn none_due(q: Multiset<TimedEvent>, now: Timestamp) -> bool {
    forall|x: TimedEvent| #[trigger] q.contains(x) ==> x.time.0 > now.0
}

/// `s` is what successive claims take out of `q`, each one the earliest of
/// what was left.
pub open spec fn drained(q: Multiset<TimedEvent>, s: Seq<TimedEvent>) -> bool
    decreases s.len(),
{
    if s.len() == 0 {
        true
    } else {
        is_earliest(q, s[0]) && drained(q.remove(s[0]), s.drop_first())
    }
}

impl View for EventQueue {
    type V = Multiset<TimedEvent>;

    closed spec fn view(&self) -> Multiset<TimedEvent> {
        self.queue@.to_multiset()
    }
}

impl EventQueue {
    /// An empty queue.
    pub fn new() -> (r: EventQueue)
        ensures
            r@ =~= Multiset::empty(),
    {
        EventQueue { queue: Vec::new() }
    }

    /// Number of queued events.
    pub fn len(&self) -> (r: usize)
        ensures
            r == self@.len(),
    {
        self.queue.len()
    }

    /// Whether no event is queued.
    pub fn is_empty(&self) -> (r: bool)
        ensures
            r == (self@.len() == 0),
    {
        self.queue.len() == 0
    }

    /// Queues `event`, due at `time`. Always succeeds, also for a time
    /// earlier than anything already queued.
    pub fn add_event(&mut self, event: Event, time: Timestamp)
        ensures
            final(self)@ =~= old(self)@.insert(TimedEvent { time, event }),
    {
        self.queue.push(TimedEvent { time, event });
    }

    /// Index of the earliest queued event.
    fn index_of_earliest(&self) -> (r: Option<usize>)
        ensures
            match r {
                None => self.queue@.len() == 0,
                Some(i) => i < self.queue@.len() && is_earliest(self@, self.queue@[i as int]),
            },
    {
        if self.queue.len() == 0 {
            return None;
        }
        proof {
            lemma_precedes_total_order();
        }
        let mut best: usize = 0;
        let mut j: usize = 1;
        while j < self.queue.len()
            invariant
                0 <= best < j <= self.queue@.len(),
                forall|k: int| 0 <= k < j ==> precedes(self.queue@[best as int], #[trigger] self.queue@[k]),
            decreases self.queue@.len() - j,
        {
            if !self.queue[best].precedes(&self.queue[j]) {
                best = j;
            }
            j = j + 1;
        }
        proof {
            assert forall|x: TimedEvent| #[trigger] self@.contains(x) implies precedes(self.queue@[best as int], x) by {
                let k = self.queue@.index_of(x);
                assert(self.queue@[k] == x);
            }
        }
        Some(best)
    }

    /// The earliest event if it is due at `now`; the queue is left as it is.
    pub fn poll_due(&self, now: Timestamp) -> (r: Option<&Event>)
        ensures
            match r {
                None => none_due(self@, now),
                Some(e) => exists|te: TimedEvent|
                    is_earliest(self@, te) && te.time.0 <= now.0 && te.event == *e,
            },
    {
        match self.index_of_earliest() {
            None => None,
            Some(i) => {
                if self.queue[i].time.0 <= now.0 {
                    Some(&self.queue[i].event)
                } else {
                    proof {
                        assert forall|x: TimedEvent| #[trigger] self@.contains(x) implies x.time.0 > now.0 by {
                            assert(precedes(self.queue@[i as int], x));
                        }
                    }
                    None
                }
            }
        }
    }

    /// The earliest event if it is due now, by the wall clock.
    pub fn poll_event(&self) -> (r: Option<&Event>)
        ensures
            r.is_none() ==> exists|now: Timestamp| none_due(self@, now),
            r matches Some(e) ==> exists|te: TimedEvent| is_earliest(self@, te) && te.event == *e,
    {
        let now = utc_now();
        self.poll_due(now)
    }

    /// Takes the earliest event out of the queue if it is due at `now`.
    /// Each queued copy of an event is handed out by one call only.
    pub fn claim_next(&mut self, now: Timestamp) -> (r: Option<TimedEvent>)
        ensures
            match r {
                None => none_due(old(self)@, now) && final(self)@ == old(self)@,
                Some(te) => {
                    &&& is_earliest(old(self)@, te)
                    &&& te.time.0 <= now.0
                    &&& final(self)@ =~= old(self)@.remove(te)
                },
            },
    {
        match self.index_of_earliest() {
            None => None,
            Some(i) => {
                if self.queue[i].time.0 <= now.0 {
                    let te = self.queue.remove(i);
                    Some(te)
                } else {
                    proof {
                        assert forall|x: TimedEvent| #[trigger] self@.contains(x) implies x.time.0 > now.0 by {
                            assert(precedes(self.queue@[i as int], x));
                        }
                    }
                    None
                }
            }
        }
    }

    /// Due time of the earliest queued event, due or not.
    pub fn time_of_next_event(&self) -> (r: Option<&Timestamp>)
        ensures
            match r {
                None => self@.len() == 0,
                Some(t) => exists|te: TimedEvent| is_earliest(self@, te) && te.time == *t,
            },
    {
        match self.index_of_earliest() {
            None => None,
            Some(i) => Some(&self.queue[i].time),
        }
    }
}

/// The first element of a non-empty sequence, put back into the multiset of
/// the rest, gives the multiset of the whole.
proof fn lemma_to_multiset_first(s: Seq<TimedEvent>)
    requires
        s.len() > 0,
    ensures
        s.to_multiset() =~= s.drop_first().to_multiset().insert(s[0]),
{
    assert(s.remove(0) =~= s.drop_first());
    assert(s.to_multiset().contains(s[0])) by {
        assert(s.contains(s[0]));
    }
}

/// Successive claims never hand out an event more often than it was queued:
/// each queued copy is claimed at most once. Claims that empty the queue hand
/// out each queued copy exactly once.
pub proof fn lemma_claims_exactly_once(q: Multiset<TimedEvent>, s: Seq<TimedEvent>)
    requires
        drained(q, s),
    ensures
        s.to_multiset().subset_of(q),
        s.len() == q.len() ==> s.to_multiset() =~= q,
    decreases s.len(),
{
    if s.len() == 0 {
        assert(s.to_multiset() =~= Multiset::empty());
    } else {
        let a = s[0];
        let rest = s.drop_first();
        lemma_claims_exactly_once(q.remove(a), rest);
        lemma_to_multiset_first(s);
        assert(q.remove(a).insert(a) =~= q);
    }
}

/// Successive claims hand events out in processing order: by due time, and
/// for equal due times by the fixed order of kinds, then by id.
pub proof fn lemma_claims_in_order(q: Multiset<TimedEvent>, s: Seq<TimedEvent>)
    requires
        drained(q, s),
    ensures
        forall|i: int, j: int| 0 <= i < j < s.len() ==> precedes(#[trigger] s[i], #[trigger] s[j]),
    decreases s.len(),
{
    if s.len() > 0 {
        let a = s[0];
        let rest = s.drop_first();
        lemma_claims_in_order(q.remove(a), rest);
        lemma_claims_exactly_once(q.remove(a), rest);
        assert forall|i: int, j: int| 0 <= i < j < s.len() implies precedes(#[trigger] s[i], #[trigger] s[j]) by {
            if i == 0 {
                assert(rest[j - 1] == s[j]);
                assert(rest.contains(s[j]));
                assert(rest.to_multiset().contains(s[j]));
                assert(q.remove(a).contains(s[j]));
                assert(q.contains(s[j]));
            } else {
                assert(rest[i - 1] == s[i]);
                assert(rest[j - 1] == s[j]);
            }
        }
    }
}

} // verus!
