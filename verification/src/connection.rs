//! One logical duplex channel to one endpoint: its connection state machine
//! and the pending table correlating request ids with outstanding requests.
//!
//! The transport itself (sockets, framing, the background reader task) stays
//! with the host; the host drives this state machine with what it observes:
//! connect established, login answered, a frame for a request id, a fatal
//! transport error. The machine decides what each event means and keeps the
//! pending table consistent.

use vstd::prelude::*;

use crate::error::Error;

verus! {

/// Connection lifecycle: connect moves a disconnected channel into the
/// handshake, a successful login makes it ready, and any fatal event drops
/// it back to disconnected.
#[derive(Clone, Copy, PartialEq, Eq, Structural, Debug)]
pub enum ConnState {
    Disconnected,
    Handshaking,
    Ready,
}

/// Correlation state of one connection.
pub struct Connection {
    state: ConnState,
    next_request_id: u64,
    pending: Vec<u64>,
    high_water_mark: usize,
    history: Ghost<Seq<u64>>,
}

impl Connection {
    pub closed spec fn spec_state(self) -> ConnState {
        self.state
    }

    /// The request ids with an outstanding completion slot.
    pub closed spec fn pending_ids(self) -> Seq<u64> {
        self.pending@
    }

    pub closed spec fn spec_next_request_id(self) -> u64 {
        self.next_request_id
    }

    /// Every request id this connection ever allocated, in allocation order.
    pub closed spec fn allocated(self) -> Seq<u64> {
        self.history@
    }

    pub closed spec fn spec_high_water_mark(self) -> usize {
        self.high_water_mark
    }

    /// Ids are allocated monotonically, outstanding slots are pairwise
    /// distinct, and every outstanding slot was allocated.
    pub closed spec fn wf(self) -> bool {
        &&& forall|i: int|
            0 <= i < self.pending@.len() ==> self.pending@[i] < self.next_request_id
        &&& forall|i: int, j: int|
            0 <= i < j < self.pending@.len() ==> self.pending@[i] != self.pending@[j]
        &&& forall|i: int, j: int|
            0 <= i < j < self.history@.len() ==> self.history@[i] < self.history@[j]
        &&& forall|i: int|
            0 <= i < self.history@.len() ==> self.history@[i] < self.next_request_id
        &&& forall|i: int| 0 <= i < self.pending@.len() ==> self.history@.contains(self.pending@[i])
    }

    /// A fresh, disconnected connection. Sends on it beyond
    /// `high_water_mark` outstanding requests fail fast with a congestion
    /// error.
    pub fn new(high_water_mark: usize) -> (c: Connection)
        ensures
            c.wf(),
            c.spec_state() is Disconnected,
            c.pending_ids().len() == 0,
            c.allocated().len() == 0,
            c.spec_next_request_id() == 0,
            c.spec_high_water_mark() == high_water_mark,
    {
        Connection {
            state: ConnState::Disconnected,
            next_request_id: 0,
            pending: Vec::new(),
            high_water_mark,
            history: Ghost(Seq::empty()),
        }
    }

    /// The lifecycle state, observably.
    pub fn state(&self) -> (s: ConnState)
        ensures
            s == self.spec_state(),
    {
        self.state
    }

    /// The host established the transport; the login handshake begins.
    pub fn begin_connect(&mut self)
        requires
            old(self).wf(),
            old(self).spec_state() is Disconnected,
        ensures
            final(self).wf(),
            final(self).spec_state() is Handshaking,
            final(self).pending_ids() == old(self).pending_ids(),
            final(self).allocated() == old(self).allocated(),
            final(self).spec_next_request_id() == old(self).spec_next_request_id(),
            final(self).spec_high_water_mark() == old(self).spec_high_water_mark(),
    {
        self.state = ConnState::Handshaking;
    }

    /// The server accepted the login; the connection is ready for requests.
    pub fn login_ok(&mut self)
        requires
            old(self).wf(),
            old(self).spec_state() is Handshaking,
        ensures
            final(self).wf(),
            final(self).spec_state() is Ready,
            final(self).pending_ids() == old(self).pending_ids(),
            final(self).allocated() == old(self).allocated(),
            final(self).spec_next_request_id() == old(self).spec_next_request_id(),
            final(self).spec_high_water_mark() == old(self).spec_high_water_mark(),
    {
        self.state = ConnState::Ready;
    }

    /// A fatal event: a rejected login, a frame that would not parse, or a
    /// socket failure. The connection drops to disconnected and every
    /// outstanding request loses its slot (the host fails each of them with
    /// a transport error).
    pub fn on_fatal(&mut self)
        requires
            old(self).wf(),
        ensures
            final(self).wf(),
            final(self).spec_state() is Disconnected,
            final(self).pending_ids().len() == 0,
            final(self).allocated() == old(self).allocated(),
            final(self).spec_next_request_id() == old(self).spec_next_request_id(),
            final(self).spec_high_water_mark() == old(self).spec_high_water_mark(),
    {
        self.state = ConnState::Disconnected;
        self.pending = Vec::new();
    }

    /// Allocates a request id and records its completion slot. Fails with a
    /// not-connected error unless the connection is ready, and fails fast
    /// with a congestion error at the high-water mark. A fresh id is larger
    /// than every id this connection ever allocated, so no two outstanding
    /// requests ever share one.
    pub fn begin_send(&mut self) -> (r: Result<u64, Error>)
        requires
            old(self).wf(),
        ensures
            final(self).wf(),
            final(self).spec_high_water_mark() == old(self).spec_high_water_mark(),
            !(old(self).spec_state() is Ready) ==> r == Err::<u64, Error>(Error::NotConnected)
                && *final(self) == *old(self),
            old(self).spec_state() is Ready && old(self).pending_ids().len() >= old(
                self,
            ).spec_high_water_mark() ==> r == Err::<u64, Error>(Error::Congestion) && *final(self) == *old(
                self,
            ),
            r matches Ok(id) ==> {
                &&& old(self).spec_state() is Ready
                &&& old(self).pending_ids().len() < old(self).spec_high_water_mark()
                &&& id == old(self).spec_next_request_id()
                &&& !old(self).pending_ids().contains(id)
                &&& !old(self).allocated().contains(id)
                &&& final(self).pending_ids() == old(self).pending_ids().push(id)
                &&& final(self).allocated() == old(self).allocated().push(id)
                &&& final(self).spec_next_request_id() == id + 1
                &&& final(self).spec_state() is Ready
            },
            old(self).spec_state() is Ready && old(self).pending_ids().len() < old(
                self,
            ).spec_high_water_mark() && old(self).spec_next_request_id() < u64::MAX ==> r is Ok,
            r is Err ==> *final(self) == *old(self),
    {
        if !matches!(self.state, ConnState::Ready) {
            return Err(Error::NotConnected);
        }
        if self.pending.len() >= self.high_water_mark {
            return Err(Error::Congestion);
        }
        if self.next_request_id == u64::MAX {
            // The id space is spent; the host must replace the connection.
            return Err(Error::Transport("request id space exhausted".to_string()));
        }
        let id = self.next_request_id;
        proof {
            if self.pending@.contains(id) {
                let k = choose|k: int| 0 <= k < self.pending@.len() && self.pending@[k] == id;
                assert(self.pending@[k] < id);
            }
            if self.history@.contains(id) {
                let k = choose|k: int| 0 <= k < self.history@.len() && self.history@[k] == id;
                assert(self.history@[k] < id);
            }
        }
        self.next_request_id = id + 1;
        self.pending.push(id);
        proof {
            self.history@ = self.history@.push(id);
        }
        proof {
            assert forall|i: int|
                0 <= i < self.pending@.len() implies self.history@.contains(
                self.pending@[i],
            ) by {
                if i < self.pending@.len() - 1 {
                    assert(old(self).history@.contains(old(self).pending@[i]));
                    let k = choose|k: int|
                        0 <= k < old(self).history@.len() && old(self).history@[k] == old(
                            self,
                        ).pending@[i];
                    assert(self.history@[k] == self.pending@[i]);
                } else {
                    assert(self.history@[self.history@.len() - 1] == id);
                }
            }
        }
        Ok(id)
    }

    /// Settles the slot of `id`: the background reader delivered its
    /// response, or its deadline expired. Returns whether the slot existed;
    /// an unknown or duplicate id settles nothing and is discarded.
    pub fn settle(&mut self, id: u64) -> (r: bool)
        requires
            old(self).wf(),
        ensures
            final(self).wf(),
            r == old(self).pending_ids().contains(id),
            !final(self).pending_ids().contains(id),
            r ==> final(self).pending_ids().len() == old(self).pending_ids().len() - 1,
            !r ==> *final(self) == *old(self),
            forall|x: u64|
                x != id ==> final(self).pending_ids().contains(x) == old(
                    self,
                ).pending_ids().contains(x),
            final(self).spec_state() == old(self).spec_state(),
            final(self).allocated() == old(self).allocated(),
            final(self).spec_next_request_id() == old(self).spec_next_request_id(),
            final(self).spec_high_water_mark() == old(self).spec_high_water_mark(),
    {
        let n = self.pending.len();
        let mut i: usize = 0;
        while i < n
            invariant
                old(self).wf(),
                self == old(self),
                n == self.pending.len(),
                i <= n,
                forall|j: int| 0 <= j < i ==> self.pending@[j] != id,
            decreases n - i,
        {
            if self.pending[i] == id {
                let ghost pre = self.pending@;
                self.pending.remove(i);
                proof {
                    assert forall|j: int|
                        0 <= j < self.pending@.len() implies #[trigger] self.pending@[j] == (if j
                            < i {
                        pre[j]
                    } else {
                        pre[j + 1]
                    }) by {
                        assert(self.pending@[j] == pre.remove(i as int)[j]);
                    }
                    assert(pre[i as int] == id);
                    assert forall|x: u64|
                        x != id implies self.pending@.contains(x) == pre.contains(x) by {
                        if pre.contains(x) {
                            let k = choose|k: int| 0 <= k < pre.len() && pre[k] == x;
                            if k < i {
                                assert(self.pending@[k] == x);
                            } else {
                                assert(k != i);
                                assert(self.pending@[k - 1] == x);
                            }
                        }
                        if self.pending@.contains(x) {
                            let k = choose|k: int|
                                0 <= k < self.pending@.len() && self.pending@[k] == x;
                            if k < i {
                                assert(pre[k] == x);
                            } else {
                                assert(pre[k + 1] == x);
                            }
                        }
                    }
                    if self.pending@.contains(id) {
                        let k = choose|k: int|
                            0 <= k < self.pending@.len() && self.pending@[k] == id;
                        if k < i {
                            assert(pre[k] == id && pre[i as int] == id);
                        } else {
                            assert(pre[k + 1] == id && pre[i as int] == id);
                        }
                    }
                    assert(pre.contains(id)) by {
                        assert(pre[i as int] == id);
                    }
                }
                return true;
            }
            i += 1;
        }
        proof {
            if self.pending@.contains(id) {
                let k = choose|k: int| 0 <= k < self.pending@.len() && self.pending@[k] == id;
                assert(self.pending@[k] != id);
            }
        }
        false
    }
    /// The per-request deadline expired: the host removes the waiter's
    /// slot and hands it the timeout error this returns. A response that
    /// arrives later finds no slot and is discarded, so the result is never
    /// partially delivered. Settling nothing reports nothing: the response
    /// won the race and the waiter already has it.
    pub fn expire(&mut self, id: u64) -> (r: Option<Error>)
        requires
            old(self).wf(),
        ensures
            final(self).wf(),
            r == (if old(self).pending_ids().contains(id) {
                Some(Error::Timeout)
            } else {
                None::<Error>
            }),
            !final(self).pending_ids().contains(id),
            !old(self).pending_ids().contains(id) ==> *final(self) == *old(self),
            forall|x: u64|
                x != id ==> final(self).pending_ids().contains(x) == old(
                    self,
                ).pending_ids().contains(x),
            final(self).spec_state() == old(self).spec_state(),
            final(self).allocated() == old(self).allocated(),
            final(self).spec_next_request_id() == old(self).spec_next_request_id(),
            final(self).spec_high_water_mark() == old(self).spec_high_water_mark(),
    {
        if self.settle(id) {
            Some(Error::Timeout)
        } else {
            None
        }
    }
}

/// Request-id uniqueness: within one connection lifetime, no two outstanding
/// requests share a request id, and no request id is ever allocated twice.
pub proof fn lemma_request_id_uniqueness(c: Connection)
    requires
        c.wf(),
    ensures
        forall|i: int, j: int|
            0 <= i < j < c.pending_ids().len() ==> c.pending_ids()[i] != c.pending_ids()[j],
        forall|i: int, j: int|
            0 <= i < j < c.allocated().len() ==> c.allocated()[i] != c.allocated()[j],
{
}

} // verus!
