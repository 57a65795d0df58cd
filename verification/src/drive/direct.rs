//! The bookkeeping of a ring that carries many requests at once.
//!
//! Requests come in, wait for room in the ring, are in flight under a tag of
//! their own, and are answered when the kernel is done with them. The caller
//! holds the buffers, and knows each request by a number.
use std::collections::HashMap;
use vstd::prelude::*;

verus! {

/// The tag of the read that wakes the ring.
pub const WAKE: u64 = u64::MAX;

pub const EINTR: i32 = 4;

pub const EIO: i32 = 5;

/// The requests of a ring.
pub struct Ring {
    /// The next tag.
    pub next: u64,
    /// The requests in flight, by tag.
    pub inflight: HashMap<u64, u64>,
    /// The requests that wait for room, first come first.
    pub pending: Vec<u64>,
    /// No more requests will come.
    pub hung_up: bool,
}

/// The tag after `n`. It is never that of the wake.
pub open spec fn tag_after(n: u64) -> u64 {
    ((n + 1) % (u64::MAX - 1)) as u64
}

/// What a completion is.
#[derive(Debug, Clone, Copy, PartialEq, Eq, Structural)]
pub enum Completion {
    /// The wake; whether it is to be armed again.
    Wake { again: bool },
    /// This request is done.
    Done { op: u64 },
    /// Nothing that is in flight.
    Unknown,
}

/// What a failure to submit comes to.
pub enum Failure {
    /// It was interrupted: go round.
    Retry,
    /// The waiting requests fail, and so do all in flight; whether the ring
    /// ends.
    FailAll { pending: Vec<u64>, exit: bool },
}

impl Ring {
    /// No request has the tag of the wake.
    pub open spec fn wf(&self) -> bool {
        &&& self.next < u64::MAX - 1
        &&& !self.inflight@.dom().contains(WAKE)
    }

    /// A ring without requests.
    pub fn new() -> (r: Self)
        ensures
            r.wf(),
            r.next == 0,
            r.inflight@ == Map::<u64, u64>::empty(),
            r.pending@ == Seq::<u64>::empty(),
            !r.hung_up,
    {
        broadcast use vstd::std_specs::hash::group_hash_axioms;

        Ring { next: 0, inflight: HashMap::new(), pending: Vec::new(), hung_up: false }
    }

    /// A request comes in.
    pub fn arrive(&mut self, op: u64)
        requires
            old(self).wf(),
        ensures
            final(self).wf(),
            final(self).pending@ == old(self).pending@.push(op),
            final(self).inflight@ == old(self).inflight@,
            final(self).next == old(self).next,
            final(self).hung_up == old(self).hung_up,
    {
        self.pending.push(op);
    }

    /// No more requests will come.
    pub fn hang_up(&mut self)
        requires
            old(self).wf(),
        ensures
            final(self).wf(),
            final(self).hung_up,
            final(self).pending@ == old(self).pending@,
            final(self).inflight@ == old(self).inflight@,
            final(self).next == old(self).next,
    {
        self.hung_up = true;
    }

    /// The request to submit next, and its tag; nothing when none waits.
    pub fn to_submit(&self) -> (r: Option<(u64, u64)>)
        requires
            self.wf(),
        ensures
            r == (if self.pending@.len() == 0 {
                None
            } else {
                Some((self.next, self.pending@[0]))
            }),
            r matches Some((tag, op)) ==> tag != WAKE,
    {
        if self.pending.len() == 0 {
            None
        } else {
            Some((self.next, self.pending[0]))
        }
    }

    /// The request that was to be submitted is in flight, under its tag.
    pub fn submitted(&mut self)
        requires
            old(self).wf(),
            old(self).pending@.len() > 0,
        ensures
            final(self).wf(),
            final(self).inflight@ == old(self).inflight@.insert(
                old(self).next,
                old(self).pending@[0],
            ),
            final(self).pending@ == old(self).pending@.drop_first(),
            final(self).next == tag_after(old(self).next),
            final(self).hung_up == old(self).hung_up,
    {
        broadcast use vstd::std_specs::hash::group_hash_axioms;

        let op: u64 = self.pending.remove(0);
        let tag: u64 = self.next;
        self.next = (tag + 1) % (u64::MAX - 1);
        self.inflight.insert(tag, op);
        assert(self.pending@ =~= old(self).pending@.drop_first());
    }

    /// The ring had no room for the request that was to be submitted: it waits
    /// on, and its tag is passed over.
    pub fn refused(&mut self)
        requires
            old(self).wf(),
        ensures
            final(self).wf(),
            final(self).inflight@ == old(self).inflight@,
            final(self).pending@ == old(self).pending@,
            final(self).next == tag_after(old(self).next),
            final(self).hung_up == old(self).hung_up,
    {
        self.next = (self.next + 1) % (u64::MAX - 1);
    }

    /// Whether the ring is at its end: nothing more will come, and nothing is
    /// left to do.
    pub fn finished(&self) -> (yes: bool)
        requires
            self.wf(),
        ensures
            yes == (self.hung_up && self.inflight@.len() == 0 && self.pending@.len() == 0),
    {
        broadcast use vstd::std_specs::hash::group_hash_axioms;

        self.hung_up && self.inflight.len() == 0 && self.pending.len() == 0
    }

    /// What a completion is. A request that is done is in flight no more.
    pub fn completed(&mut self, tag: u64) -> (c: Completion)
        requires
            old(self).wf(),
        ensures
            final(self).wf(),
            final(self).pending@ == old(self).pending@,
            final(self).next == old(self).next,
            final(self).hung_up == old(self).hung_up,
            final(self).inflight@ == old(self).inflight@.remove(tag),
            c == (if tag == WAKE {
                Completion::Wake { again: !old(self).hung_up }
            } else if old(self).inflight@.dom().contains(tag) {
                Completion::Done { op: old(self).inflight@[tag] }
            } else {
                Completion::Unknown
            }),
    {
        broadcast use vstd::std_specs::hash::group_hash_axioms;

        if tag == WAKE {
            assert(self.inflight@ =~= self.inflight@.remove(tag));
            return Completion::Wake { again: !self.hung_up };
        }
        match self.inflight.remove(&tag) {
            Some(op) => Completion::Done { op },
            None => {
                assert(self.inflight@ =~= old(self).inflight@.remove(tag));
                Completion::Unknown
            },
        }
    }

    /// What a failure to submit comes to. All requests fail but for an
    /// interruption, and a ring that no more requests reach ends.
    pub fn failed(&mut self, errno: Option<i32>) -> (f: Failure)
        requires
            old(self).wf(),
        ensures
            final(self).wf(),
            final(self).next == old(self).next,
            final(self).hung_up == old(self).hung_up,
            if errno == Some(EINTR) {
                &&& f is Retry
                &&& final(self).pending@ == old(self).pending@
                &&& final(self).inflight@ == old(self).inflight@
            } else {
                &&& f matches Failure::FailAll { pending, exit }
                &&& pending@ == old(self).pending@
                &&& exit == old(self).hung_up
                &&& final(self).pending@ == Seq::<u64>::empty()
                &&& final(self).inflight@ == Map::<u64, u64>::empty()
            },
    {
        broadcast use vstd::std_specs::hash::group_hash_axioms;

        match errno {
            Some(n) => {
                if n == EINTR {
                    return Failure::Retry;
                }
            },
            None => {},
        }
        let mut pending: Vec<u64> = Vec::new();
        pending.append(&mut self.pending);
        self.inflight = HashMap::new();
        assert(pending@ =~= old(self).pending@);
        Failure::FailAll { pending, exit: self.hung_up }
    }
}

/// A request is answered once: when its tag has come back, the same tag brings
/// it no more.
pub proof fn a_request_is_answered_once(inflight: Map<u64, u64>, tag: u64)
    ensures
        !inflight.remove(tag).dom().contains(tag),
        forall|t: u64|
            t != tag && inflight.dom().contains(t) ==> #[trigger] inflight.remove(tag).dom().contains(
                t,
            ) && inflight.remove(tag)[t] == inflight[t],
{
}

/// What a write that moved `n` of `len` bytes comes to.
#[derive(Debug, Clone, Copy, PartialEq, Eq, Structural)]
pub enum Written {
    Done,
    /// The rest is written, from here on.
    Rest { from: usize },
    /// Nothing more can be written.
    Stuck,
}

/// What a write comes to that had `done` of `len` bytes behind it and moved
/// `n` more. Only a continued write that moves nothing is stuck.
pub fn after_write(done: usize, n: usize, len: usize, first: bool) -> (w: Written)
    requires
        done + n <= len,
    ensures
        w == (if !first && n == 0 {
            Written::Stuck
        } else if done + n == len {
            Written::Done
        } else {
            Written::Rest { from: (done + n) as usize }
        }),
        w is Stuck <==> !first && n == 0,
        w is Done ==> done + n == len,
        w matches Written::Rest { from } ==> from - done == n && from < len,
{
    if !first && n == 0 {
        Written::Stuck
    } else if done + n == len {
        Written::Done
    } else {
        Written::Rest { from: done + n }
    }
}

} // verus!
