//! The event log — what the data itself cannot remember.
//!
//! Creations and additions are attributed on the object. Deletions and edits
//! leave no such trace — once a recipe is gone there is no field left to hold
//! "and Alice deleted it" — so they are recorded here instead.
//!
//! The log is **capped on purpose**. It is a courtesy feature, not an audit
//! trail, and every device holds a full copy of the document.

use vstd::prelude::*;

use crate::ids::{IngredientId, ListEntryId, RecipeId, Timestamp, UserId};

verus! {

/// What an event happened to.
#[derive(Debug, PartialEq, Eq)]
pub enum Subject {
    Recipe(RecipeId),
    Ingredient(IngredientId),
    ListEntry(ListEntryId),
}

impl Clone for Subject {
    fn clone(&self) -> (r: Self)
        ensures
            r == *self,
    {
        match self {
            Subject::Recipe(id) => Subject::Recipe(id.clone()),
            Subject::Ingredient(id) => Subject::Ingredient(id.clone()),
            Subject::ListEntry(id) => Subject::ListEntry(id.clone()),
        }
    }
}

impl Subject {
    /// The same subject: same kind, same id text.
    pub open spec fn same_as(self, other: Subject) -> bool {
        match (self, other) {
            (Subject::Recipe(a), Subject::Recipe(b)) => a@ == b@,
            (Subject::Ingredient(a), Subject::Ingredient(b)) => a@ == b@,
            (Subject::ListEntry(a), Subject::ListEntry(b)) => a@ == b@,
            _ => false,
        }
    }

    pub fn same(&self, other: &Subject) -> (b: bool)
        ensures
            b == self.same_as(*other),
    {
        match (self, other) {
            (Subject::Recipe(a), Subject::Recipe(b)) => a.same(b),
            (Subject::Ingredient(a), Subject::Ingredient(b)) => a.same(b),
            (Subject::ListEntry(a), Subject::ListEntry(b)) => a.same(b),
            _ => false,
        }
    }
}

/// What happened to it. Creation is deliberately absent: it is already
/// attributed on the object.
#[derive(Debug, Clone, Copy, PartialEq, Eq, Structural)]
pub enum Action {
    Edited,
    Deleted,
}

/// One line of the log.
#[derive(Debug, PartialEq, Eq)]
pub struct Event {
    pub at: Timestamp,
    pub by: UserId,
    pub action: Action,
    pub subject: Subject,
    /// The subject's name **as it was when the event happened** — copied,
    /// not looked up, because the whole point of logging a deletion is that
    /// the object is gone.
    pub label: String,
}

impl Clone for Event {
    fn clone(&self) -> (r: Self)
        ensures
            r == *self,
    {
        Event {
            at: self.at,
            by: self.by.clone(),
            action: self.action,
            subject: self.subject.clone(),
            label: self.label.clone(),
        }
    }
}

impl Event {
    pub fn new(at: Timestamp, by: UserId, action: Action, subject: Subject, label: &str) -> (r:
        Event)
        ensures
            r.at == at,
            r.by == by,
            r.action == action,
            r.subject == subject,
            r.label@ == label@,
    {
        Event { at, by, action, subject, label: label.to_owned() }
    }
}

/// The log, oldest first — in the order entries were merged, not a global
/// timeline: timestamps come from devices with different clocks.
#[derive(Debug, Clone, Default, PartialEq, Eq)]
pub struct EventLog {
    pub events: Vec<Event>,
}

/// The newest `max` of `events`, all of them if there are no more.
pub open spec fn spec_trim(events: Seq<Event>, max: nat) -> Seq<Event> {
    if events.len() > max {
        events.skip(events.len() - max)
    } else {
        events
    }
}

/// The events of `events` about `subject`, oldest first.
pub open spec fn events_about(events: Seq<Event>, subject: Subject) -> Seq<Event>
    decreases events.len(),
{
    if events.len() == 0 {
        seq![]
    } else {
        let rest = events_about(events.drop_last(), subject);
        if events.last().subject.same_as(subject) {
            rest.push(events.last())
        } else {
            rest
        }
    }
}

impl EventLog {
    /// How many events survive: months of family use at a handful of edits a
    /// week — far past the point where anybody scrolls.
    pub const CAP: usize = 200;

    pub fn new() -> (r: EventLog)
        ensures
            r.events@.len() == 0,
    {
        EventLog { events: Vec::new() }
    }

    /// Appends an event and re-applies the cap.
    pub fn record(&mut self, event: Event)
        ensures
            final(self).events@ == spec_trim(old(self).events@.push(event), 200),
    {
        self.events.push(event);
        self.trim(Self::CAP);
    }

    /// Drops the oldest entries beyond `max`.
    ///
    /// A **soft bound, not an invariant**: two devices that trim while offline
    /// both delete from the front and then merge, so the result is a coherent
    /// log of *about* `max` entries. The store re-applies this after a merge.
    pub fn trim(&mut self, max: usize)
        ensures
            final(self).events@ == spec_trim(old(self).events@, max as nat),
    {
        let len = self.events.len();
        if len > max {
            let start = len - max;
            let mut kept: Vec<Event> = Vec::new();
            let mut i = start;
            while i < len
                invariant
                    start <= i <= len,
                    len == self.events@.len(),
                    kept@ == self.events@.subrange(start as int, i as int),
                decreases len - i,
            {
                kept.push(self.events[i].clone());
                proof {
                    assert(kept@ =~= self.events@.subrange(start as int, i + 1));
                }
                i = i + 1;
            }
            proof {
                assert(kept@ =~= self.events@.skip(start as int));
            }
            self.events = kept;
        }
    }

    /// Most recent first — the order the log is read in.
    pub fn recent(&self) -> (r: Vec<Event>)
        ensures
            r@ == self.events@.reverse(),
    {
        let mut r: Vec<Event> = Vec::new();
        let mut i = self.events.len();
        while i > 0
            invariant
                i <= self.events@.len(),
                r@ == self.events@.skip(i as int).reverse(),
            decreases i,
        {
            i = i - 1;
            r.push(self.events[i].clone());
            proof {
                assert(self.events@.skip(i as int).reverse() =~= self.events@.skip(i + 1).reverse().push(
                    self.events@[i as int],
                ));
            }
        }
        proof {
            assert(self.events@.skip(0) =~= self.events@);
        }
        r
    }

    /// Every event about one subject, oldest first.
    pub fn about(&self, subject: &Subject) -> (r: Vec<Event>)
        ensures
            r@ == events_about(self.events@, *subject),
    {
        let mut r: Vec<Event> = Vec::new();
        let mut i: usize = 0;
        while i < self.events.len()
            invariant
                i <= self.events@.len(),
                r@ == events_about(self.events@.take(i as int), *subject),
            decreases self.events@.len() - i,
        {
            proof {
                assert(self.events@.take(i + 1).drop_last() =~= self.events@.take(i as int));
            }
            if self.events[i].subject.same(subject) {
                r.push(self.events[i].clone());
            }
            i = i + 1;
        }
        proof {
            assert(self.events@.take(i as int) =~= self.events@);
        }
        r
    }
}

/// Trimming is idempotent — which is what makes it safe to re-apply after
/// every merge — and keeps exactly the newest entries, never more than `max`.
pub proof fn law_trim_is_idempotent(events: Seq<Event>, max: nat)
    ensures
        spec_trim(spec_trim(events, max), max) == spec_trim(events, max),
        spec_trim(events, max).len() <= max || spec_trim(events, max) == events,
        spec_trim(events, max).len() == if events.len() > max {
            max as int
        } else {
            events.len() as int
        },
        forall|i: int|
            0 <= i < spec_trim(events, max).len() ==> #[trigger] spec_trim(events, max)[i]
                == events[events.len() - spec_trim(events, max).len() + i],
{
}

/// Recording keeps the log within the cap and always keeps the event just
/// recorded, as the newest.
pub proof fn law_record_keeps_the_newest(events: Seq<Event>, event: Event)
    ensures
        spec_trim(events.push(event), 200).len() <= 200,
        spec_trim(events.push(event), 200).last() == event,
{
}

} // verus!
