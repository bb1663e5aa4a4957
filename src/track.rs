use vstd::prelude::*;

use crate::config::WrapperError;
use crate::session::{strictly_increasing, GroupPlan};

verus! {

/// Group sequencing of a single published track, numbered from zero: a
/// frame goes to the open group, and writing with no open group is refused.
pub struct StreamPublisher {
    sequence_number: u64,
    current_group: Option<u64>,
    opened: Ghost<Seq<u64>>,
}

impl StreamPublisher {
    /// The number the next group gets.
    pub closed spec fn next_seq(&self) -> u64 {
        self.sequence_number
    }

    pub closed spec fn current(&self) -> Option<u64> {
        self.current_group
    }

    /// Every group number opened so far, in order.
    pub closed spec fn opened(&self) -> Seq<u64> {
        self.opened@
    }

    pub closed spec fn wf(&self) -> bool {
        &&& strictly_increasing(self.opened@)
        &&& forall|i: int| 0 <= i < self.opened@.len() ==> #[trigger] self.opened@[i] < self.sequence_number
        &&& self.current_group matches Some(g) ==> self.opened@.len() > 0 && g == self.opened@.last()
    }

    pub fn new() -> (r: Self)
        ensures
            r.wf(),
            r.next_seq() == 0,
            r.current() is None,
            r.opened().len() == 0,
    {
        StreamPublisher { sequence_number: 0, current_group: None, opened: Ghost(Seq::empty()) }
    }

    /// Closes the open group, if any, and opens the next one.
    pub fn start_group(&mut self) -> (r: Result<GroupPlan, WrapperError>)
        requires
            old(self).wf(),
        ensures
            final(self).wf(),
            old(self).next_seq() == u64::MAX ==> (r matches Err(WrapperError::Session(_)) && *final(self) == *old(self)),
            old(self).next_seq() < u64::MAX ==> {
                &&& r == Ok::<GroupPlan, WrapperError>(GroupPlan { closed: old(self).current(), opened: old(self).next_seq() })
                &&& final(self).next_seq() == old(self).next_seq() + 1
                &&& final(self).current() == Some(old(self).next_seq())
                &&& final(self).opened() == old(self).opened().push(old(self).next_seq())
            },
    {
        if self.sequence_number == u64::MAX {
            return Err(WrapperError::Session("Group sequence numbers exhausted".to_string()));
        }
        let closed = self.current_group;
        let seq = self.sequence_number;
        let ghost before = self.opened@;
        self.current_group = Some(seq);
        self.sequence_number = seq + 1;
        self.opened = Ghost(before.push(seq));
        proof {
            assert forall|a: int, b: int| 0 <= a < b < self.opened@.len() implies self.opened@[a] < self.opened@[b] by {
                if b < before.len() {
                    assert(before[a] < before[b]);
                } else {
                    assert(before[a] < seq);
                }
            }
            assert forall|a: int| 0 <= a < self.opened@.len() implies #[trigger] self.opened@[a] < self.sequence_number by {
                if a < before.len() {
                    assert(before[a] < seq);
                }
            }
        }
        Ok(GroupPlan { closed, opened: seq })
    }

    /// The group a frame is written to: the open one.
    pub fn write_frame(&self) -> (r: Result<u64, WrapperError>)
        ensures
            self.current() matches Some(g) ==> r == Ok::<u64, WrapperError>(g),
            self.current() is None ==> r matches Err(WrapperError::Session(_)),
    {
        match self.current_group {
            Some(g) => Ok(g),
            None => Err(WrapperError::Session("No active group, call start_group() first".to_string())),
        }
    }

    /// Closes the open group, if any, and returns its number.
    pub fn close_group(&mut self) -> (r: Option<u64>)
        requires
            old(self).wf(),
        ensures
            final(self).wf(),
            r == old(self).current(),
            final(self).current() is None,
            final(self).next_seq() == old(self).next_seq(),
            final(self).opened() == old(self).opened(),
    {
        let r = self.current_group;
        self.current_group = None;
        r
    }

    /// Writes one frame as a group of its own.
    pub fn write_single_frame(&mut self) -> (r: Result<GroupPlan, WrapperError>)
        requires
            old(self).wf(),
        ensures
            final(self).wf(),
            old(self).next_seq() == u64::MAX ==> (r matches Err(WrapperError::Session(_)) && *final(self) == *old(self)),
            old(self).next_seq() < u64::MAX ==> {
                &&& r == Ok::<GroupPlan, WrapperError>(GroupPlan { closed: old(self).current(), opened: old(self).next_seq() })
                &&& final(self).next_seq() == old(self).next_seq() + 1
                &&& final(self).current() is None
                &&& final(self).opened() == old(self).opened().push(old(self).next_seq())
            },
    {
        let plan = self.start_group()?;
        let _ = self.write_frame();
        let _ = self.close_group();
        Ok(plan)
    }
}

} // verus!
