use vstd::prelude::*;

verus! {

/// Marks a type whose values are sent as events.
pub trait Event {}

/// One generation of events, with the number of events sent before it.
#[derive(Debug)]
struct EventSequence<E> {
    events: Vec<E>,
    start_event_count: usize,
}

/// A double-buffered event stream: the events sent since the last `update`
/// (the newer generation), the events of the generation before (the older
/// one), and the total ever sent.
#[derive(Debug)]
pub struct Events<E> {
    events_a: EventSequence<E>,
    events_b: EventSequence<E>,
    event_count: usize,
}

/// `c` brought into `lo..=hi`.
pub open spec fn clamp(c: nat, lo: nat, hi: nat) -> nat {
    if c < lo {
        lo
    } else if c > hi {
        hi
    } else {
        c
    }
}

impl<E> Events<E> {
    /// The older generation's events, oldest first.
    pub closed spec fn older(&self) -> Seq<E> {
        self.events_a.events@
    }

    /// How many events were sent before the older generation.
    pub closed spec fn older_start(&self) -> nat {
        self.events_a.start_event_count as nat
    }

    /// The newer generation's events, oldest first.
    pub closed spec fn newer(&self) -> Seq<E> {
        self.events_b.events@
    }

    /// How many events were sent before the newer generation.
    pub closed spec fn newer_start(&self) -> nat {
        self.events_b.start_event_count as nat
    }

    /// How many events were ever sent.
    pub closed spec fn sent(&self) -> nat {
        self.event_count as nat
    }

    /// The two generations are consecutive and end at the total.
    pub open spec fn wf(&self) -> bool {
        &&& self.older_start() + self.older().len() == self.newer_start()
        &&& self.newer_start() + self.newer().len() == self.sent()
    }

    /// The events still held, oldest first; the first is event number
    /// `older_start()`.
    pub open spec fn held(&self) -> Seq<E> {
        self.older() + self.newer()
    }

    /// Where a reader whose cursor is `cursor` resumes: events it missed that
    /// are no longer held are skipped, and a cursor past the total stops there.
    pub open spec fn resume_at(&self, cursor: nat) -> nat {
        clamp(cursor, self.older_start(), self.sent())
    }

    /// The events a reader whose cursor is `cursor` has not read yet, oldest
    /// first.
    pub open spec fn unread(&self, cursor: nat) -> Seq<E> {
        self.held().subrange(
            self.resume_at(cursor) - self.older_start(),
            self.held().len() as int,
        )
    }

    pub fn new() -> (r: Self)
        ensures
            r.wf(),
            r.older() == Seq::<E>::empty(),
            r.newer() == Seq::<E>::empty(),
            r.sent() == 0,
            r.older_start() == 0,
    {
        Events {
            events_a: EventSequence { events: Vec::new(), start_event_count: 0 },
            events_b: EventSequence { events: Vec::new(), start_event_count: 0 },
            event_count: 0,
        }
    }

    /// The event at `index` in the newer generation.
    pub fn get(&self, index: usize) -> (r: Option<&E>)
        ensures
            r == if index < self.newer().len() {
                Some(&self.newer()[index as int])
            } else {
                None::<&E>
            },
    {
        if index < self.events_b.events.len() {
            Some(&self.events_b.events[index])
        } else {
            None
        }
    }

    /// Appends `event` to the newer generation.
    pub fn send(&mut self, event: E)
        requires
            old(self).wf(),
            old(self).sent() < usize::MAX,
        ensures
            final(self).wf(),
            final(self).newer() == old(self).newer().push(event),
            final(self).older() == old(self).older(),
            final(self).older_start() == old(self).older_start(),
            final(self).newer_start() == old(self).newer_start(),
            final(self).sent() == old(self).sent() + 1,
    {
        self.events_b.events.push(event);
        self.event_count = self.event_count + 1;
    }

    /// Rotates the generations: the newer one becomes the older one, whose
    /// events are dropped, and a new, empty generation starts at the total.
    pub fn update(&mut self)
        requires
            old(self).wf(),
        ensures
            final(self).wf(),
            final(self).older() == old(self).newer(),
            final(self).older_start() == old(self).newer_start(),
            final(self).newer() == Seq::<E>::empty(),
            final(self).newer_start() == old(self).sent(),
            final(self).sent() == old(self).sent(),
    {
        core::mem::swap(&mut self.events_a, &mut self.events_b);
        self.events_b.events.clear();
        self.events_b.start_event_count = self.event_count;
    }

    /// How many events were ever sent.
    pub fn total_sent(&self) -> (r: usize)
        ensures
            r == self.sent(),
    {
        self.event_count
    }

    /// How many events are held, in both generations.
    pub fn len(&self) -> (r: usize)
        requires
            self.wf(),
        ensures
            r == self.held().len(),
    {
        self.events_b.events.len() + self.events_a.events.len()
    }

    pub fn is_empty(&self) -> (r: bool)
        ensures
            r == (self.held().len() == 0),
    {
        self.events_b.events.len() == 0 && self.events_a.events.len() == 0
    }

    /// The event numbered `n` (counting every event ever sent from zero),
    /// which must still be held.
    fn event_at(&self, n: usize) -> (r: &E)
        requires
            self.wf(),
            self.older_start() <= n < self.sent(),
        ensures
            *r == self.held()[n - self.older_start()],
    {
        if n < self.events_b.start_event_count {
            &self.events_a.events[n - self.events_a.start_event_count]
        } else {
            &self.events_b.events[n - self.events_b.start_event_count]
        }
    }
}

/// A reader's walk over the events it has not read yet, oldest first. The
/// cursor counts the events read so far, over the whole stream.
pub struct EventIterator<'a, E> {
    events: &'a Events<E>,
    cursor: usize,
}

impl<'a, E> EventIterator<'a, E> {
    pub closed spec fn spec_events(&self) -> &'a Events<E> {
        self.events
    }

    pub closed spec fn spec_cursor(&self) -> nat {
        self.cursor as nat
    }

    /// The events this walk has yet to yield.
    pub open spec fn remaining(&self) -> Seq<E> {
        self.spec_events().unread(self.spec_cursor())
    }

    /// The cursor lies within the held events.
    pub open spec fn wf(&self) -> bool {
        &&& self.spec_events().wf()
        &&& self.spec_events().older_start() <= self.spec_cursor() <= self.spec_events().sent()
    }

    /// Starts a walk over the events that a reader with cursor `cursor` has not
    /// read; missed events no longer held are skipped over.
    pub fn new(cursor: usize, events: &'a Events<E>) -> (r: Self)
        requires
            events.wf(),
        ensures
            r.wf(),
            r.spec_events() == events,
            r.spec_cursor() == events.resume_at(cursor as nat),
            r.remaining() == events.unread(cursor as nat),
    {
        let c = if cursor < events.events_a.start_event_count {
            events.events_a.start_event_count
        } else if cursor > events.event_count {
            events.event_count
        } else {
            cursor
        };
        EventIterator { events, cursor: c }
    }

    /// The cursor: how many events of the stream count as read.
    pub fn cursor(&self) -> (r: usize)
        ensures
            r == self.spec_cursor(),
    {
        self.cursor
    }

    /// How many events are left.
    pub fn unread(&self) -> (r: usize)
        requires
            self.wf(),
        ensures
            r == self.remaining().len(),
    {
        self.events.event_count - self.cursor
    }

    /// Yields the oldest unread event and counts it as read.
    pub fn next(&mut self) -> (r: Option<&'a E>)
        requires
            old(self).wf(),
        ensures
            final(self).wf(),
            final(self).spec_events() == old(self).spec_events(),
            old(self).remaining().len() == 0 ==> r is None && final(self).remaining()
                == old(self).remaining(),
            old(self).remaining().len() > 0 ==> r == Some(&old(self).remaining()[0])
                && final(self).remaining() == old(self).remaining().drop_first(),
    {
        if self.cursor < self.events.event_count {
            let e = self.events.event_at(self.cursor);
            self.cursor = self.cursor + 1;
            Some(e)
        } else {
            None
        }
    }

    /// Skips the `n` oldest unread events and yields the one after them, if
    /// any; every event skipped or yielded counts as read.
    pub fn nth(&mut self, n: usize) -> (r: Option<&'a E>)
        requires
            old(self).wf(),
        ensures
            final(self).wf(),
            final(self).spec_events() == old(self).spec_events(),
            n < old(self).remaining().len() ==> r == Some(&old(self).remaining()[n as int])
                && final(self).remaining() == old(self).remaining().subrange(
                n + 1,
                old(self).remaining().len() as int,
            ),
            n >= old(self).remaining().len() ==> r is None && final(self).remaining() == Seq::<
                E,
            >::empty(),
    {
        let left = self.events.event_count - self.cursor;
        if n < left {
            self.cursor = self.cursor + n;
            let e = self.events.event_at(self.cursor);
            self.cursor = self.cursor + 1;
            Some(e)
        } else {
            self.cursor = self.events.event_count;
            None
        }
    }

    /// Counts the unread events and marks them all read, without visiting them.
    pub fn count(&mut self) -> (r: usize)
        requires
            old(self).wf(),
        ensures
            final(self).wf(),
            final(self).spec_events() == old(self).spec_events(),
            r == old(self).remaining().len(),
            final(self).remaining() == Seq::<E>::empty(),
            final(self).spec_cursor() == old(self).spec_events().sent(),
    {
        let left = self.events.event_count - self.cursor;
        self.cursor = self.events.event_count;
        left
    }

    /// The newest unread event, if any; every event counts as read afterwards.
    pub fn last(&mut self) -> (r: Option<&'a E>)
        requires
            old(self).wf(),
        ensures
            final(self).wf(),
            final(self).spec_events() == old(self).spec_events(),
            r == if old(self).remaining().len() > 0 {
                Some(&old(self).remaining().last())
            } else {
                None::<&E>
            },
            final(self).remaining() == Seq::<E>::empty(),
    {
        if self.cursor < self.events.event_count {
            let e = self.events.event_at(self.events.event_count - 1);
            self.cursor = self.events.event_count;
            Some(e)
        } else {
            None
        }
    }
}

/// A reader of an event stream: how many events of the stream it has read,
/// kept between reads.
#[derive(Debug, Clone, Copy, PartialEq, Eq, Structural)]
pub struct EventReader {
    cursor: usize,
}

impl EventReader {
    pub closed spec fn spec_cursor(&self) -> nat {
        self.cursor as nat
    }

    /// A reader that has read nothing yet.
    pub fn new() -> (r: Self)
        ensures
            r.spec_cursor() == 0,
    {
        EventReader { cursor: 0 }
    }

    pub fn cursor(&self) -> (r: usize)
        ensures
            r == self.spec_cursor(),
    {
        self.cursor
    }

    /// The events of `events` this reader has not read yet, oldest first; all
    /// count as read afterwards.
    pub fn read<'a, E>(&mut self, events: &'a Events<E>) -> (r: Vec<&'a E>)
        requires
            events.wf(),
        ensures
            r@.len() == events.unread(old(self).spec_cursor()).len(),
            forall|k: int|
                0 <= k < r@.len() ==> *(#[trigger] r@[k]) == events.unread(
                    old(self).spec_cursor(),
                )[k],
            final(self).spec_cursor() == events.sent(),
    {
        let mut it = EventIterator::new(self.cursor, events);
        let ghost all = it.remaining();
        let mut out: Vec<&'a E> = Vec::new();
        loop
            invariant
                it.wf(),
                it.spec_events() == events,
                all == events.unread(old(self).spec_cursor()),
                out@.len() + it.remaining().len() == all.len(),
                it.remaining() == all.subrange(out@.len() as int, all.len() as int),
                forall|k: int| 0 <= k < out@.len() ==> *(#[trigger] out@[k]) == all[k],
            ensures
                it.wf(),
                it.spec_events() == events,
                out@.len() == all.len(),
                forall|k: int| 0 <= k < out@.len() ==> *(#[trigger] out@[k]) == all[k],
            decreases it.remaining().len(),
        {
            let ghost before = it.remaining();
            match it.next() {
                Some(e) => {
                    proof {
                        assert(before[0] == all[out@.len() as int]);
                    }
                    out.push(e);
                    proof {
                        assert(it.remaining() =~= all.subrange(out@.len() as int, all.len() as int));
                    }
                },
                None => {
                    assert(before.len() == 0);
                    break;
                },
            }
        }
        let _ = it.count();
        self.cursor = it.cursor();
        out
    }
}

/// Sends events into a stream it borrows exclusively.
pub struct EventWriter<'w, E> {
    events: &'w mut Events<E>,
}

impl<'w, E> EventWriter<'w, E> {
    pub closed spec fn stream(&self) -> Events<E> {
        *self.events
    }

    pub fn new(events: &'w mut Events<E>) -> (r: Self)
        ensures
            r.stream() == *old(events),
    {
        EventWriter { events }
    }

    /// Appends `event` to the stream's newer generation.
    pub fn send(&mut self, event: E)
        requires
            old(self).stream().wf(),
            old(self).stream().sent() < usize::MAX,
        ensures
            final(self).stream().wf(),
            final(self).stream().newer() == old(self).stream().newer().push(event),
            final(self).stream().older() == old(self).stream().older(),
            final(self).stream().sent() == old(self).stream().sent() + 1,
    {
        self.events.send(event);
    }
}

impl Default for EventReader {
    fn default() -> (r: Self)
        ensures
            r.spec_cursor() == 0,
    {
        EventReader::new()
    }
}

/// A reader whose cursor has reached the total has nothing left to read,
/// until more events are sent.
pub proof fn lemma_caught_up_reads_nothing<E>(events: &Events<E>)
    requires
        events.wf(),
    ensures
        events.unread(events.sent()) == Seq::<E>::empty(),
{
    assert(events.unread(events.sent()) =~= Seq::<E>::empty());
}

} // verus!
