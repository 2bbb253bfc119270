//! The reactor's state: the token-indexed connection table and the two
//! pool-level queues.  The socket and readiness plumbing live with the
//! unverified runtime; every decision the reactor makes on an event is
//! here, verified.

use vstd::prelude::*;

use crate::connection::ConnState;
use crate::connection::Connection;
use crate::connection::WorkItem;

verus! {

/// The outcome of one readiness event.
#[derive(Clone, Copy, PartialEq, Eq, Structural, Debug)]
pub enum ReadyOutcome {
    /// No connection holds the token.
    NoConnection,
    /// Input readiness: a buffered response moved to the outbound queue.
    Collected,
    /// Output readiness: the oldest queued work item was attached; the
    /// runtime must now plan, execute and complete it.
    Dispatched,
    /// Output readiness with nothing queued, or an event that does not
    /// match the connection's state: nothing happened.
    Idle,
}

/// The connection table and queues the reactor owns.  Token 0 is
/// reserved for the listening socket; client tokens start at 1 and are
/// never reused for the lifetime of the pool.
pub struct ConnectionPool {
    pub token_counter: usize,
    pub connections: Vec<Connection>,
    pub request_messages: Vec<WorkItem>,
    pub response_messages: Vec<Vec<u8>>,
}

impl ConnectionPool {
    /// Every connection is well formed; every token is at least 1,
    /// below the counter, and held by at most one connection.
    pub open spec fn wf(self) -> bool {
        &&& self.token_counter >= 1
        &&& forall|i: int|
            0 <= i < self.connections@.len() ==> (#[trigger] self.connections@[i]).wf()
        &&& forall|i: int|
            0 <= i < self.connections@.len() ==> 1 <= (#[trigger] self.connections@[i]).token
                < self.token_counter
        &&& forall|i: int, j: int|
            0 <= i < j < self.connections@.len() ==> (#[trigger] self.connections@[i]).token != (
            #[trigger] self.connections@[j]).token
    }

    pub fn new() -> (p: ConnectionPool)
        ensures
            p.wf(),
            p.token_counter == 1,
            p.connections@.len() == 0,
            p.request_messages@.len() == 0,
            p.response_messages@.len() == 0,
    {
        ConnectionPool {
            token_counter: 1,
            connections: Vec::new(),
            request_messages: Vec::new(),
            response_messages: Vec::new(),
        }
    }

    /// Accept one client: allocate the next token and register a fresh
    /// connection under it.  The new token is strictly greater than
    /// every token ever allocated before, so no open connection holds
    /// it.  Fails only when the counter is exhausted.
    pub fn accept(&mut self) -> (r: Option<usize>)
        requires
            old(self).wf(),
        ensures
            final(self).wf(),
            final(self).request_messages == old(self).request_messages,
            final(self).response_messages == old(self).response_messages,
            (match r {
                Option::Some(tok) => tok == old(self).token_counter && final(self).token_counter
                    == old(self).token_counter + 1 && final(self).connections@.len() == old(self).connections@.len() + 1 && final(self).connections@.last().token == tok && final(self).connections@.last().state is AwaitingDispatch && final(self).connections@.subrange(0, old(self).connections@.len() as int) == old(self).connections@ && (forall|i: int|
                    0 <= i < old(self).connections@.len() ==> (#[trigger] old(self).connections@[i]).token != tok),
                Option::None => old(self).token_counter == usize::MAX && *final(self) == *old(self),
            }),
    {
        if self.token_counter == usize::MAX {
            return Option::None;
        }
        let tok = self.token_counter;
        self.token_counter = self.token_counter + 1;
        let c = Connection::new(tok);
        self.connections.push(c);
        proof {
            assert(final(self).connections@.subrange(0, old(self).connections@.len() as int)
                =~= old(self).connections@);
        }
        Option::Some(tok)
    }

    /// The table index of the connection holding the token.
    pub fn find_connection_by_token(&self, token: usize) -> (r: Option<usize>)
        ensures
            (match r {
                Option::Some(i) => i < self.connections@.len() && self.connections@[i as int].token
                    == token,
                Option::None => forall|i: int|
                    0 <= i < self.connections@.len() ==> (#[trigger] self.connections@[i]).token
                        != token,
            }),
    {
        let mut i: usize = 0;
        while i < self.connections.len()
            invariant
                i <= self.connections@.len(),
                forall|j: int|
                    0 <= j < i ==> (#[trigger] self.connections@[j]).token != token,
            decreases self.connections@.len() - i,
        {
            if self.connections[i].token == token {
                return Option::Some(i);
            }
            i = i + 1;
        }
        Option::None
    }

    /// Remove the connection at a table index, when its socket closed.
    /// Every other connection is kept, so tokens stay unique and below
    /// the counter.
    pub fn remove_connection(&mut self, i: usize)
        requires
            old(self).wf(),
            i < old(self).connections@.len(),
        ensures
            final(self).wf(),
            final(self).token_counter == old(self).token_counter,
            final(self).connections@ == old(self).connections@.remove(i as int),
            final(self).request_messages == old(self).request_messages,
            final(self).response_messages == old(self).response_messages,
    {
        self.connections.remove(i);
    }

    /// Close the connection holding the token and remove it from the
    /// table, as a socket-level failure demands.  Nothing in flight is
    /// lost: a work item still being processed goes back to the front of
    /// the inbound queue, and a response already computed but not yet
    /// collected goes to the outbound queue.
    pub fn close_connection(&mut self, token: usize) -> (r: bool)
        requires
            old(self).wf(),
        ensures
            final(self).wf(),
            final(self).token_counter == old(self).token_counter,
            ({
                let ti = token_index(old(self).connections@, token);
                let oc = old(self).connections@[ti];
                &&& (r <==> ti >= 0)
                &&& (ti < 0 ==> *final(self) == *old(self))
                &&& (ti >= 0 ==> {
                    &&& final(self).connections@ == old(self).connections@.remove(ti)
                    &&& (oc.state is Processing ==> final(self).request_messages@ == seq![
                        oc.item->Some_0,
                    ] + old(self).request_messages@ && final(self).response_messages == old(self).response_messages)
                    &&& (oc.state is AwaitingCollection ==> final(self).response_messages@ == old(self).response_messages@.push(oc.response->Some_0) && final(self).request_messages == old(self).request_messages)
                    &&& (!(oc.state is Processing) && !(oc.state is AwaitingCollection) ==> final(self).request_messages == old(self).request_messages && final(self).response_messages == old(self).response_messages)
                })
            }),
    {
        proof {
            lemma_token_index(old(self).connections@, token);
        }
        let idx = match self.find_connection_by_token(token) {
            Option::None => {
                proof {
                    let ti = token_index(old(self).connections@, token);
                    if ti >= 0 {
                        assert(old(self).connections@[ti].token == token);
                    }
                }
                return false;
            },
            Option::Some(i) => i,
        };
        let ghost before = old(self).connections@;
        proof {
            let ti = token_index(before, token);
            assert(before[idx as int].token == token);
            assert(ti >= 0);
            if ti < idx as int {
                assert(before[ti].token != before[idx as int].token);
            }
            if ti > idx as int {
                assert(before[idx as int].token != before[ti].token);
            }
            assert(ti == idx as int);
            assert(before[idx as int].wf());
        }
        let c = self.connections.remove(idx);
        match c.item {
            Option::Some(w) => {
                self.request_messages.insert(0, w);
                proof {
                    assert(self.request_messages@ =~= seq![
                        before[idx as int].item->Some_0,
                    ] + old(self).request_messages@);
                }
            },
            Option::None => {},
        }
        match c.response {
            Option::Some(p) => {
                self.response_messages.push(p);
            },
            Option::None => {},
        }
        true
    }

    /// Append one caller request to the inbound queue (the reactor's
    /// side of the cross-context hand-off).
    pub fn enqueue_request(&mut self, w: WorkItem)
        requires
            old(self).wf(),
        ensures
            final(self).wf(),
            final(self).token_counter == old(self).token_counter,
            final(self).connections == old(self).connections,
            final(self).request_messages@ == old(self).request_messages@.push(w),
            final(self).response_messages == old(self).response_messages,
    {
        self.request_messages.push(w);
    }

    /// Pop the oldest buffered response for delivery.
    pub fn pop_response(&mut self) -> (r: Option<Vec<u8>>)
        requires
            old(self).wf(),
        ensures
            final(self).wf(),
            final(self).token_counter == old(self).token_counter,
            final(self).connections == old(self).connections,
            final(self).request_messages == old(self).request_messages,
            (match r {
                Option::Some(p) => old(self).response_messages@.len() > 0 && p == old(self).response_messages@[0] && final(self).response_messages@ == old(self).response_messages@.drop_first(),
                Option::None => old(self).response_messages@.len() == 0 && final(self).response_messages == old(self).response_messages,
            }),
    {
        if self.response_messages.len() == 0 {
            Option::None
        } else {
            let p = self.response_messages.remove(0);
            Option::Some(p)
        }
    }

    /// Drive one readiness event, as the reactor loop does: input
    /// readiness collects the connection's buffered response onto the
    /// outbound queue; output readiness attaches the oldest queued work
    /// item (first in, first out, no per-connection affinity).  The
    /// contract forces each outcome: a readable event on a connection
    /// awaiting collection always collects, a writable event on an idle
    /// connection with queued work always dispatches, and every other
    /// event leaves the pool unchanged; connections other than the
    /// event's own are never touched.
    pub fn on_ready(&mut self, token: usize, readable: bool, writable: bool) -> (r: ReadyOutcome)
        requires
            old(self).wf(),
        ensures
            final(self).wf(),
            final(self).token_counter == old(self).token_counter,
            final(self).connections@.len() == old(self).connections@.len(),
            ({
                let ti = token_index(old(self).connections@, token);
                let oc = old(self).connections@[ti];
                let fc = final(self).connections@[ti];
                &&& (r is NoConnection <==> ti < 0)
                &&& (ti < 0 ==> *final(self) == *old(self))
                &&& (ti >= 0 ==> {
                    &&& final(self).connections@ == old(self).connections@.update(ti, fc)
                    &&& fc.token == token
                    &&& (r is Collected <==> readable && oc.state is AwaitingCollection)
                    &&& (r is Collected ==> fc.state is AwaitingDispatch && fc.item is None
                        && final(self).response_messages@ == old(self).response_messages@.push(
                        oc.response->Some_0,
                    ) && final(self).request_messages == old(self).request_messages)
                    &&& (r is Dispatched <==> !readable && writable && old(self).request_messages@.len() > 0 && oc.state is AwaitingDispatch)
                    &&& (r is Dispatched ==> fc.state is Processing && fc.item == Option::Some(
                        old(self).request_messages@[0],
                    ) && final(self).request_messages@ == old(self).request_messages@.drop_first() && final(self).response_messages == old(self).response_messages)
                    &&& (r is Idle ==> fc == oc && final(self).request_messages == old(self).request_messages && final(self).response_messages == old(self).response_messages)
                })
            }),
    {
        proof {
            lemma_token_index(old(self).connections@, token);
        }
        let idx = match self.find_connection_by_token(token) {
            Option::None => {
                proof {
                    let ti = token_index(old(self).connections@, token);
                    if ti >= 0 {
                        assert(old(self).connections@[ti].token == token);
                    }
                }
                return ReadyOutcome::NoConnection;
            },
            Option::Some(i) => i,
        };
        let ghost before = old(self).connections@;
        proof {
            let ti = token_index(before, token);
            assert(before[idx as int].token == token);
            assert(ti >= 0);
            if ti < idx as int {
                assert(before[ti].token != before[idx as int].token);
            }
            if ti > idx as int {
                assert(before[idx as int].token != before[ti].token);
            }
            assert(ti == idx as int);
            assert(before[idx as int].wf());
        }
        let mut c = self.connections.remove(idx);
        let outcome: ReadyOutcome;
        if readable {
            match c.collect() {
                Result::Ok(p) => {
                    self.response_messages.push(p);
                    outcome = ReadyOutcome::Collected;
                },
                Result::Err(e) => {
                    outcome = ReadyOutcome::Idle;
                },
            }
        } else if writable {
            if self.request_messages.len() > 0 && matches!(c.state, ConnState::AwaitingDispatch) {
                let w = self.request_messages.remove(0);
                let a = c.assign(w);
                proof {
                    assert(a is Ok);
                }
                outcome = ReadyOutcome::Dispatched;
            } else {
                outcome = ReadyOutcome::Idle;
            }
        } else {
            outcome = ReadyOutcome::Idle;
        }
        self.connections.insert(idx, c);
        proof {
            let fin = final(self).connections@;
            assert(fin =~= before.update(idx as int, fin[idx as int]));
            assert(fin[idx as int].token == token);
            assert forall|i: int| 0 <= i < fin.len() implies (#[trigger] fin[i]).wf() && 1 <= fin[i].token < final(self).token_counter by {
                assert(before[i].wf());
            }
            assert forall|i: int, j: int| 0 <= i < j < fin.len() implies (#[trigger] fin[i]).token
                != (#[trigger] fin[j]).token by {
                assert(before[i].token == fin[i].token);
                assert(before[j].token == fin[j].token);
            }
        }
        outcome
    }
}


/// The table index of the first connection holding the token, or a
/// negative value when none does.
pub open spec fn token_index(conns: Seq<Connection>, token: usize) -> int
    decreases conns.len(),
{
    if conns.len() == 0 {
        -1
    } else if conns[0].token == token {
        0
    } else {
        let r = token_index(conns.drop_first(), token);
        if r < 0 {
            -1
        } else {
            1 + r
        }
    }
}

pub proof fn lemma_token_index(conns: Seq<Connection>, token: usize)
    ensures
        token_index(conns, token) < 0 ==> (forall|i: int|
            0 <= i < conns.len() ==> (#[trigger] conns[i]).token != token),
        token_index(conns, token) >= 0 ==> 0 <= token_index(conns, token) < conns.len() && conns[
            token_index(conns, token)
        ].token == token,
    decreases conns.len(),
{
    if conns.len() > 0 && conns[0].token != token {
        lemma_token_index(conns.drop_first(), token);
        assert forall|i: int| 1 <= i < conns.len() implies conns.drop_first()[i - 1] == (
        #[trigger] conns[i]) by {}
    }
}

/// Token allocation never hands out a token an open connection still
/// holds: in a well-formed pool every held token lies strictly below
/// the counter, and `accept` allocates the counter itself and then
/// increments it, so allocated tokens are strictly increasing and fresh
/// for any sequence of accept and close events.
pub proof fn lemma_token_freshness(p: ConnectionPool)
    requires
        p.wf(),
    ensures
        forall|i: int|
            0 <= i < p.connections@.len() ==> (#[trigger] p.connections@[i]).token
                != p.token_counter,
{
}

} // verus!
