//! Request bookkeeping of the client and server sockets: every remote call
//! gets a fresh request id, and an answer carries the id of the request it
//! answers.
use vstd::prelude::*;

verus! {

/// A framed packet: the request it belongs to and the encoded protocol value.
pub struct Message {
    pub request_id: u64,
    pub msg: Vec<u8>,
}

/// The request ids of a client socket: the next id to hand out, and the ids
/// still waiting for their answer.
pub struct Socket {
    next_request_id: u64,
    pending_requests: Vec<u64>,
}

impl Socket {
    /// Every pending id was handed out before the next one, and the pending
    /// ids increase from the oldest to the newest.
    #[verifier::type_invariant]
    spec fn ids_below_next(self) -> bool {
        &&& forall|i: int|
            0 <= i < self.pending_requests@.len() ==> #[trigger] self.pending_requests@[i]
                < self.next_request_id
        &&& forall|i: int, j: int|
            0 <= i < j < self.pending_requests@.len() ==> #[trigger] self.pending_requests@[i]
                < #[trigger] self.pending_requests@[j]
    }

    /// The next id to hand out.
    pub closed spec fn next_id(self) -> u64 {
        self.next_request_id
    }

    /// The ids waiting for their answer, oldest first.
    pub closed spec fn pending(self) -> Seq<u64> {
        self.pending_requests@
    }

    /// A socket that has sent nothing yet.
    pub fn new() -> (s: Socket)
        ensures
            s.next_id() == 0,
            s.pending() == Seq::<u64>::empty(),
    {
        Socket { next_request_id: 0, pending_requests: Vec::new() }
    }

    /// Registers a remote call of `packet`: it gets the next request id,
    /// which is recorded as pending, and the message to send is returned.
    pub fn rpc(&mut self, packet: Vec<u8>) -> (msg: Message)
        requires
            old(self).next_id() < u64::MAX,
        ensures
            msg.request_id == old(self).next_id(),
            msg.msg == packet,
            !old(self).pending().contains(msg.request_id),
            final(self).next_id() == old(self).next_id() + 1,
            final(self).pending() == old(self).pending().push(msg.request_id),
            final(self).pending().no_duplicates(),
    {
        proof {
            use_type_invariant(&*self);
        }
        let request_id = self.next_request_id;
        let mut pending = Vec::new();
        std::mem::swap(&mut pending, &mut self.pending_requests);
        pending.push(request_id);
        assert forall|i: int| 0 <= i < pending@.len() implies #[trigger] pending@[i] < request_id
            + 1 by {
            if i < pending@.len() - 1 {
                assert(pending@[i] == old(self).pending_requests@[i]);
            }
        }
        assert forall|i: int, j: int| 0 <= i < j < pending@.len() implies #[trigger] pending@[i]
            < #[trigger] pending@[j] by {
            assert(pending@[i] == old(self).pending_requests@[i]);
            if j < pending@.len() - 1 {
                assert(pending@[j] == old(self).pending_requests@[j]);
            }
        }
        self.next_request_id = request_id + 1;
        self.pending_requests = pending;
        proof {
            use_type_invariant(&*self);
            assert forall|i: int, j: int|
                0 <= i < self.pending().len() && 0 <= j < self.pending().len() && i != j implies
                    #[trigger] self.pending()[i] != #[trigger] self.pending()[j] by {
                if i < j {
                    assert(self.pending_requests@[i] < self.pending_requests@[j]);
                } else {
                    assert(self.pending_requests@[j] < self.pending_requests@[i]);
                }
            }
        }
        Message { request_id, msg: packet }
    }

    /// Takes an answered request off the pending list: reports whether
    /// `request_id` was pending, and removes it if so. An answer to no pending
    /// request leaves the socket as it is.
    pub fn resolve(&mut self, request_id: u64) -> (was_pending: bool)
        ensures
            was_pending == old(self).pending().contains(request_id),
            final(self).next_id() == old(self).next_id(),
            was_pending ==> final(self).pending() == old(self).pending().remove(
                old(self).pending().index_of(request_id),
            ),
            !was_pending ==> final(self).pending() == old(self).pending(),
            final(self).pending().no_duplicates(),
    {
        proof {
            use_type_invariant(&*self);
        }
        let mut i: usize = 0;
        while i < self.pending_requests.len()
            invariant
                *self == *old(self),
                i <= self.pending_requests@.len(),
                forall|j: int| 0 <= j < i ==> self.pending_requests@[j] != request_id,
            decreases self.pending_requests@.len() - i,
        {
            proof {
                use_type_invariant(&*self);
            }
            if self.pending_requests[i] == request_id {
                let ghost before = self.pending_requests@;
                proof {
                    assert(before.contains(request_id));
                    let k = before.index_of(request_id);
                    assert(before[k] == request_id);
                    if k != i as int {
                        if k < i {
                        } else {
                            assert(before[i as int] < before[k]);
                        }
                    }
                }
                let mut pending = Vec::new();
                std::mem::swap(&mut pending, &mut self.pending_requests);
                pending.remove(i);
                proof {
                    assert forall|a: int, b: int| 0 <= a < b < pending@.len() implies #[trigger] pending@[a]
                        < #[trigger] pending@[b] by {
                        let a0 = if a < i { a } else { a + 1 };
                        let b0 = if b < i { b } else { b + 1 };
                        assert(pending@[a] == before[a0]);
                        assert(pending@[b] == before[b0]);
                    }
                    assert forall|a: int| 0 <= a < pending@.len() implies #[trigger] pending@[a]
                        < self.next_request_id by {
                        let a0 = if a < i { a } else { a + 1 };
                        assert(pending@[a] == before[a0]);
                    }
                }
                self.pending_requests = pending;
                proof {
                    use_type_invariant(&*self);
                    assert forall|a: int, b: int|
                        0 <= a < self.pending().len() && 0 <= b < self.pending().len() && a != b implies
                            #[trigger] self.pending()[a] != #[trigger] self.pending()[b] by {
                        if a < b {
                            assert(self.pending_requests@[a] < self.pending_requests@[b]);
                        } else {
                            assert(self.pending_requests@[b] < self.pending_requests@[a]);
                        }
                    }
                }
                return true;
            }
            i = i + 1;
        }
        proof {
            use_type_invariant(&*self);
            assert forall|a: int, b: int|
                0 <= a < self.pending().len() && 0 <= b < self.pending().len() && a != b implies
                    #[trigger] self.pending()[a] != #[trigger] self.pending()[b] by {
                if a < b {
                    assert(self.pending_requests@[a] < self.pending_requests@[b]);
                } else {
                    assert(self.pending_requests@[b] < self.pending_requests@[a]);
                }
            }
        }
        false
    }

    /// Whether a request id is still waiting for its answer.
    pub fn is_pending(&self, request_id: u64) -> (res: bool)
        ensures
            res == self.pending().contains(request_id),
    {
        let mut i: usize = 0;
        while i < self.pending_requests.len()
            invariant
                i <= self.pending_requests@.len(),
                forall|j: int| 0 <= j < i ==> self.pending_requests@[j] != request_id,
            decreases self.pending_requests@.len() - i,
        {
            if self.pending_requests[i] == request_id {
                assert(self.pending_requests@[i as int] == request_id);
                return true;
            }
            i = i + 1;
        }
        false
    }
}

/// A connected client of the server.
pub struct Client {
    pub session_id: usize,
}

impl Client {
    /// A client without a session yet.
    pub fn new() -> (c: Client)
        ensures
            c.session_id == 0,
    {
        Client { session_id: 0 }
    }

    /// Records the client's session.
    pub fn set_session_id(&mut self, session_id: usize)
        ensures
            final(self).session_id == session_id,
    {
        self.session_id = session_id;
    }

    /// What `handle_msg` sends back once the request has been dispatched:
    /// nothing when the dispatch has no response, otherwise the encoded
    /// response under the request's id.
    pub fn handle_msg(&self, request: &Message, response: Option<Vec<u8>>) -> (reply: Option<
        Message,
    >)
        ensures
            response is None ==> reply is None,
            response matches Some(bytes) ==> (reply matches Some(m) && m.request_id
                == request.request_id && m.msg == bytes),
    {
        match response {
            Some(bytes) => Some(Message { request_id: request.request_id, msg: bytes }),
            None => None,
        }
    }
}

} // verus!
