use vstd::prelude::*;

verus! {

/// A drainable buffer: taking the contents empties it and hands the elements
/// out oldest first.
pub trait Drain {
    type Item;

    /// The buffered elements, oldest first.
    spec fn contents(&self) -> Seq<Self::Item>;

    fn drain(&mut self) -> (r: Vec<Self::Item>)
        ensures
            r@ == old(self).contents(),
            final(self).contents() == Seq::<Self::Item>::empty(),
    ;
}

/// Exclusive access to an `EventQueue`'s buffer, for draining it.
pub struct EventQueueWrapper<EventType> {
    items: Vec<EventType>,
}

/// A queue of pending events, drained in full once per tick.
pub struct EventQueue<EventType> {
    inner: EventQueueWrapper<EventType>,
}

/// Exclusive access to a `SharedEventQueue`'s buffer, for draining it.
pub struct SharedEventQueueWrapper<EventType> {
    items: Vec<EventType>,
}

/// The event buffer the physics bridge fills while the solver steps. The
/// solver's event emission is synchronous within the tick, so a single-owner
/// queue suffices; it is kept apart from `EventQueue` so that the collection
/// side and the drain side stay distinct.
pub struct SharedEventQueue<EventType> {
    inner: SharedEventQueueWrapper<EventType>,
}

impl<EventType> EventQueue<EventType> {
    /// The queued events, oldest first.
    pub closed spec fn contents(self) -> Seq<EventType> {
        self.inner.items@
    }

    pub fn new() -> (r: EventQueue<EventType>)
        ensures
            r.contents() == Seq::<EventType>::empty(),
    {
        EventQueue { inner: EventQueueWrapper { items: Vec::new() } }
    }

    pub fn push(&mut self, val: EventType)
        ensures
            final(self).contents() == old(self).contents().push(val),
    {
        self.inner.items.push(val);
    }

    pub fn get_mut(&mut self) -> (r: &mut EventQueueWrapper<EventType>)
        ensures
            r.contents() == old(self).contents(),
            final(self).contents() == final(r).contents(),
    {
        &mut self.inner
    }

    pub fn is_empty(&self) -> (r: bool)
        ensures
            r == (self.contents().len() == 0),
    {
        self.inner.items.len() == 0
    }

    pub fn len(&self) -> (r: usize)
        ensures
            r == self.contents().len(),
    {
        self.inner.items.len()
    }
}

impl<EventType> SharedEventQueue<EventType> {
    /// The queued events, oldest first.
    pub closed spec fn contents(self) -> Seq<EventType> {
        self.inner.items@
    }

    pub fn new() -> (r: SharedEventQueue<EventType>)
        ensures
            r.contents() == Seq::<EventType>::empty(),
    {
        SharedEventQueue { inner: SharedEventQueueWrapper { items: Vec::new() } }
    }

    pub fn push(&mut self, val: EventType)
        ensures
            final(self).contents() == old(self).contents().push(val),
    {
        self.inner.items.push(val);
    }

    pub fn get_mut(&mut self) -> (r: &mut SharedEventQueueWrapper<EventType>)
        ensures
            r.contents() == old(self).contents(),
            final(self).contents() == final(r).contents(),
    {
        &mut self.inner
    }

    pub fn is_empty(&self) -> (r: bool)
        ensures
            r == (self.contents().len() == 0),
    {
        self.inner.items.len() == 0
    }

    pub fn len(&self) -> (r: usize)
        ensures
            r == self.contents().len(),
    {
        self.inner.items.len()
    }
}

impl<EventType> Default for EventQueue<EventType> {
    fn default() -> (r: EventQueue<EventType>)
        ensures
            r.contents() == Seq::<EventType>::empty(),
    {
        EventQueue::new()
    }
}

impl<EventType> Default for SharedEventQueue<EventType> {
    fn default() -> (r: SharedEventQueue<EventType>)
        ensures
            r.contents() == Seq::<EventType>::empty(),
    {
        SharedEventQueue::new()
    }
}

impl<EventType> Drain for EventQueueWrapper<EventType> {
    type Item = EventType;

    closed spec fn contents(&self) -> Seq<EventType> {
        self.items@
    }

    fn drain(&mut self) -> (r: Vec<EventType>)
        ensures
            r@ == old(self).contents(),
            final(self).contents() == Seq::<EventType>::empty(),
    {
        let r = self.items.split_off(0);
        proof {
            assert(r@ == old(self).items@);
            assert(final(self).items@ == Seq::<EventType>::empty());
        }
        r
    }
}

impl<EventType> Drain for SharedEventQueueWrapper<EventType> {
    type Item = EventType;

    closed spec fn contents(&self) -> Seq<EventType> {
        self.items@
    }

    fn drain(&mut self) -> (r: Vec<EventType>)
        ensures
            r@ == old(self).contents(),
            final(self).contents() == Seq::<EventType>::empty(),
    {
        let r = self.items.split_off(0);
        proof {
            assert(r@ == old(self).items@);
            assert(final(self).items@ == Seq::<EventType>::empty());
        }
        r
    }
}

} // verus!
