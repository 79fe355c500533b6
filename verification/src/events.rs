//! Events that changes to the grid give rise to.

use vstd::prelude::*;
use std::collections::VecDeque;

use crate::Pos;

verus! {

/// A change of the grid that others react to.
#[derive(Clone, Copy, Debug)]
pub enum GridChangeEvent {
    /// The cube at this position was emptied.
    Delete(Pos),
}

/// Events in the order they were published.
pub struct EventQueue {
    pub cube_events: VecDeque<GridChangeEvent>,
}

impl EventQueue {
    /// An empty queue.
    pub fn new() -> (q: EventQueue)
        ensures
            q.cube_events@ == Seq::<GridChangeEvent>::empty(),
    {
        EventQueue { cube_events: VecDeque::new() }
    }

    /// Appends `grid_change_event` behind the events already queued.
    pub fn publish_event(&mut self, grid_change_event: GridChangeEvent)
        ensures
            final(self).cube_events@ == old(self).cube_events@.push(grid_change_event),
    {
        self.cube_events.push_back(grid_change_event);
    }

    /// Takes the oldest event out of the queue, if there is one.
    pub fn next_event(&mut self) -> (e: Option<GridChangeEvent>)
        ensures
            old(self).cube_events@.len() == 0 ==> e is None && final(self).cube_events@ == old(self).cube_events@,
            old(self).cube_events@.len() > 0 ==> e == Some(old(self).cube_events@[0])
                && final(self).cube_events@ == old(self).cube_events@.drop_first(),
    {
        self.cube_events.pop_front()
    }
}

} // verus!
