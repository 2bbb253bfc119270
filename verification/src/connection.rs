//! Per-client connection state machine: at most one pending work item
//! and at most one buffered response, with the dispatch / process /
//! collect cycle the reactor drives.

use vstd::prelude::*;

use crate::parser::ObjectDef;
use crate::parser::parse_mutation_query;
use crate::parser::parse_query;
use crate::parser::spec_parse_mutation;
use crate::parser::spec_parse_query;
use crate::translate::Schema;
use crate::translate::TranslationError;
use crate::translate::spec_translate_add;
use crate::translate::spec_translate_delete;
use crate::translate::spec_translate_get;
use crate::translate::spec_translate_update;
use crate::translate::stmts_view;
use crate::translate::table_fields;
use crate::translate::translate_add;
use crate::translate::translate_delete;
use crate::translate::translate_get;
use crate::translate::translate_update;

verus! {

/// The operation kind a caller requested.
#[derive(Clone, Copy, PartialEq, Eq, Structural, Debug)]
pub enum Operation {
    Get,
    Add,
    Update,
    Delete,
}

/// One caller request in flight: its operation kind and raw query text.
/// The completion handle that delivers the response stays with the
/// unverified runtime.
#[derive(Clone, PartialEq, Eq, Debug)]
pub struct WorkItem {
    pub operation: Operation,
    pub body: Vec<u8>,
}

/// The connection's position in its dispatch cycle.
#[derive(Clone, Copy, PartialEq, Eq, Structural, Debug)]
pub enum ConnState {
    AwaitingDispatch,
    Processing,
    AwaitingCollection,
    Closed,
}

/// The one readiness direction a connection is armed for.
#[derive(Clone, Copy, PartialEq, Eq, Structural, Debug)]
pub enum Interest {
    Readable,
    Writable,
}

/// Why a state transition was refused.
#[derive(Clone, Copy, PartialEq, Eq, Structural, Debug)]
pub enum ConnectionError {
    Busy,
    NotProcessing,
    NotCollectable,
}

/// One accepted client connection and its pipeline state.
pub struct Connection {
    pub token: usize,
    pub state: ConnState,
    pub item: Option<WorkItem>,
    pub response: Option<Vec<u8>>,
}

impl Connection {
    /// Exactly one work item is attached while processing, never more;
    /// a buffered response exists exactly while awaiting collection.
    pub open spec fn wf(self) -> bool {
        &&& (self.state is AwaitingDispatch ==> self.item is None && self.response is None)
        &&& (self.state is Processing ==> self.item is Some && self.response is None)
        &&& (self.state is AwaitingCollection ==> self.item is None && self.response is Some)
        &&& (self.state is Closed ==> self.item is None && self.response is None)
    }

    pub fn new(token: usize) -> (c: Connection)
        ensures
            c.wf(),
            c.token == token,
            c.state is AwaitingDispatch,
    {
        Connection { token, state: ConnState::AwaitingDispatch, item: Option::None, response: Option::None }
    }

    /// The readiness direction the reactor arms for this state: output
    /// readiness while waiting for work, input readiness while a result
    /// waits to be collected, nothing in between.
    pub fn interest(&self) -> (r: Option<Interest>)
        ensures
            (r == Option::Some(Interest::Writable)) == (self.state is AwaitingDispatch),
            (r == Option::Some(Interest::Readable)) == (self.state is AwaitingCollection),
            (r is None) == (self.state is Processing || self.state is Closed),
    {
        match self.state {
            ConnState::AwaitingDispatch => Option::Some(Interest::Writable),
            ConnState::AwaitingCollection => Option::Some(Interest::Readable),
            ConnState::Processing => Option::None,
            ConnState::Closed => Option::None,
        }
    }

    /// Attach one work item.  Fails, leaving the connection unchanged,
    /// unless the connection is idle and holds no item: a connection
    /// never holds two work items at once.
    pub fn assign(&mut self, item: WorkItem) -> (r: Result<(), ConnectionError>)
        requires
            old(self).wf(),
        ensures
            final(self).wf(),
            final(self).token == old(self).token,
            (match r {
                Result::Ok(u) => old(self).state is AwaitingDispatch && final(self).state
                    is Processing && final(self).item == Option::Some(item) && final(self).response is None,
                Result::Err(e) => e == ConnectionError::Busy && !(old(self).state
                    is AwaitingDispatch) && *final(self) == *old(self),
            }),
    {
        match self.state {
            ConnState::AwaitingDispatch => {
                self.state = ConnState::Processing;
                self.item = Option::Some(item);
                Result::Ok(())
            },
            _ => Result::Err(ConnectionError::Busy),
        }
    }

    /// The SQL plan (or error payload) for the attached work item: parse
    /// the text, then translate the tree against the schema.
    pub fn plan(&self, schema: &Schema) -> (r: Result<Vec<Vec<u8>>, Vec<u8>>)
        requires
            self.wf(),
            self.state is Processing,
        ensures
            (match self.item {
                Option::Some(w) => (match r {
                    Result::Ok(v) => spec_plan(w.operation, w.body@, schema.tables@)
                        == Result::<Seq<Seq<u8>>, Seq<u8>>::Ok(stmts_view(v@)),
                    Result::Err(e) => spec_plan(w.operation, w.body@, schema.tables@)
                        == Result::<Seq<Seq<u8>>, Seq<u8>>::Err(e@),
                }),
                Option::None => false,
            }),
    {
        match &self.item {
            Option::Some(w) => plan_item(w, schema),
            Option::None => {
                proof {
                    assert(false);
                }
                Result::Err(Vec::new())
            },
        }
    }

    /// Buffer the computed response and move on to await collection.
    /// Whatever the backend produced, the connection always reaches
    /// `AwaitingCollection` with a payload, success or error alike.
    pub fn complete(&mut self, payload: Vec<u8>) -> (r: Result<(), ConnectionError>)
        requires
            old(self).wf(),
        ensures
            final(self).wf(),
            final(self).token == old(self).token,
            (match r {
                Result::Ok(u) => old(self).state is Processing && final(self).state
                    is AwaitingCollection && final(self).response == Option::Some(payload)
                    && final(self).item is None,
                Result::Err(e) => e == ConnectionError::NotProcessing && !(old(self).state
                    is Processing) && *final(self) == *old(self),
            }),
    {
        match self.state {
            ConnState::Processing => {
                self.state = ConnState::AwaitingCollection;
                self.item = Option::None;
                self.response = Option::Some(payload);
                Result::Ok(())
            },
            _ => Result::Err(ConnectionError::NotProcessing),
        }
    }

    /// Hand the buffered response out and return to awaiting dispatch.
    /// Fails, leaving the connection unchanged, when no response waits.
    pub fn collect(&mut self) -> (r: Result<Vec<u8>, ConnectionError>)
        requires
            old(self).wf(),
        ensures
            final(self).wf(),
            final(self).token == old(self).token,
            (match r {
                Result::Ok(p) => old(self).state is AwaitingCollection && old(self).response
                    == Option::Some(p) && final(self).state is AwaitingDispatch && final(self).response is None && final(self).item is None,
                Result::Err(e) => e == ConnectionError::NotCollectable && !(old(self).state
                    is AwaitingCollection) && *final(self) == *old(self),
            }),
    {
        match self.state {
            ConnState::AwaitingCollection => {
                let mut taken: Option<Vec<u8>> = Option::None;
                core::mem::swap(&mut taken, &mut self.response);
                match taken {
                    Option::Some(p) => {
                        self.state = ConnState::AwaitingDispatch;
                        Result::Ok(p)
                    },
                    Option::None => {
                        proof {
                            assert(false);
                        }
                        Result::Err(ConnectionError::NotCollectable)
                    },
                }
            },
            _ => Result::Err(ConnectionError::NotCollectable),
        }
    }

    /// Tear the connection down; reachable from any state.  A work item
    /// still attached is handed back, never silently dropped: the caller
    /// must requeue it or resolve its handle with an error.
    pub fn close(&mut self) -> (r: Option<WorkItem>)
        ensures
            final(self).wf(),
            final(self).token == old(self).token,
            final(self).state is Closed,
            r == old(self).item,
    {
        let mut taken: Option<WorkItem> = Option::None;
        core::mem::swap(&mut taken, &mut self.item);
        self.state = ConnState::Closed;
        self.response = Option::None;
        taken
    }
}

/// A well-formed connection holds a work item only while processing, and
/// never a work item and a buffered response at once: under any
/// interleaving of assign, complete and collect there is at most one
/// work item attached.
pub proof fn lemma_work_item_exclusive(c: Connection)
    requires
        c.wf(),
    ensures
        c.item is Some ==> c.state is Processing,
        !(c.item is Some && c.response is Some),
{
}

/// What processing one work item produces: the SQL statements to run,
/// or the error payload to answer with.  Total: every operation kind and
/// body yields either a plan or an error payload.
pub open spec fn spec_plan(op: Operation, body: Seq<u8>, ts: Seq<ObjectDef>) -> Result<
    Seq<Seq<u8>>,
    Seq<u8>,
> {
    match op {
        Operation::Get => match spec_parse_query(body) {
            Option::None => Result::Err(parse_error_text()),
            Option::Some(t) => match spec_translate_get(t, ts) {
                Result::Err(e) => Result::Err(translation_error_text(e)),
                Result::Ok(s) => Result::Ok(s),
            },
        },
        Operation::Add => match spec_parse_mutation(body) {
            Option::None => Result::Err(parse_error_text()),
            Option::Some(t) => match spec_translate_add(t, ts) {
                Result::Err(e) => Result::Err(translation_error_text(e)),
                Result::Ok(s) => Result::Ok(s),
            },
        },
        Operation::Update => match spec_parse_mutation(body) {
            Option::None => Result::Err(parse_error_text()),
            Option::Some(t) => match spec_translate_update(t, ts) {
                Result::Err(e) => Result::Err(translation_error_text(e)),
                Result::Ok(s) => Result::Ok(seq![s]),
            },
        },
        Operation::Delete => match spec_parse_mutation(body) {
            Option::None => Result::Err(parse_error_text()),
            Option::Some(t) => match spec_translate_delete(t, ts) {
                Result::Err(e) => Result::Err(translation_error_text(e)),
                Result::Ok(s) => Result::Ok(seq![s]),
            },
        },
    }
}

/// The half of end-to-end resolution that the library can state: for
/// every operation and body the plan is total — a statement list or an
/// error payload, nothing else — so a request never stalls inside the
/// library; in particular an insert whose mutation translates resolves
/// with its statements, and one against an unknown table resolves with
/// exactly the unknown-table payload.  Delivery of the payload across
/// threads belongs to the runtime.
pub proof fn lemma_add_plan_resolves(body: Seq<u8>, ts: Seq<ObjectDef>)
    requires
        spec_parse_mutation(body) is Some,
    ensures
        spec_translate_add(spec_parse_mutation(body)->Some_0, ts) matches Result::Ok(s)
            ==> spec_plan(Operation::Add, body, ts) == Result::<Seq<Seq<u8>>, Seq<u8>>::Ok(s),
        table_fields(ts, spec_parse_mutation(body)->Some_0.name) is None ==> spec_plan(
            Operation::Add,
            body,
            ts,
        ) == Result::<Seq<Seq<u8>>, Seq<u8>>::Err(
            translation_error_text(TranslationError::UnknownTable),
        ),
{
}

/// The payload answering a request whose text failed to parse.
pub open spec fn parse_error_text() -> Seq<u8> {
    seq![101u8, 114u8, 114u8, 111u8, 114u8, 58u8, 32u8, 112u8, 97u8, 114u8, 115u8, 101u8]
}

/// The payload answering a request whose tree failed to translate.
pub open spec fn translation_error_text(e: TranslationError) -> Seq<u8> {
    let base = seq![101u8, 114u8, 114u8, 111u8, 114u8, 58u8, 32u8];
    match e {
        TranslationError::UnknownTable => base + seq![116u8, 97u8, 98u8, 108u8, 101u8],
        TranslationError::UnknownColumn => base + seq![99u8, 111u8, 108u8, 117u8, 109u8, 110u8],
        TranslationError::InvalidShape => base + seq![115u8, 104u8, 97u8, 112u8, 101u8],
    }
}

/// The exec payload for a parse failure (`error: parse`).
pub fn parse_error_payload() -> (r: Vec<u8>)
    ensures
        r@ == parse_error_text(),
{
    let mut v: Vec<u8> = Vec::new();
    v.push(101);
    v.push(114);
    v.push(114);
    v.push(111);
    v.push(114);
    v.push(58);
    v.push(32);
    v.push(112);
    v.push(97);
    v.push(114);
    v.push(115);
    v.push(101);
    proof {
        assert(v@ =~= parse_error_text());
    }
    v
}

/// The exec payload for a translation failure (`error: table`,
/// `error: column` or `error: shape`).
pub fn translation_error_payload(e: TranslationError) -> (r: Vec<u8>)
    ensures
        r@ == translation_error_text(e),
{
    let mut v: Vec<u8> = Vec::new();
    v.push(101);
    v.push(114);
    v.push(114);
    v.push(111);
    v.push(114);
    v.push(58);
    v.push(32);
    match e {
        TranslationError::UnknownTable => {
            v.push(116);
            v.push(97);
            v.push(98);
            v.push(108);
            v.push(101);
        },
        TranslationError::UnknownColumn => {
            v.push(99);
            v.push(111);
            v.push(108);
            v.push(117);
            v.push(109);
            v.push(110);
        },
        TranslationError::InvalidShape => {
            v.push(115);
            v.push(104);
            v.push(97);
            v.push(112);
            v.push(101);
        },
    }
    proof {
        assert(v@ =~= translation_error_text(e));
    }
    v
}

/// Compute the plan for one work item against the schema.
pub fn plan_item(w: &WorkItem, schema: &Schema) -> (r: Result<Vec<Vec<u8>>, Vec<u8>>)
    ensures
        (match r {
            Result::Ok(v) => spec_plan(w.operation, w.body@, schema.tables@)
                == Result::<Seq<Seq<u8>>, Seq<u8>>::Ok(stmts_view(v@)),
            Result::Err(e) => spec_plan(w.operation, w.body@, schema.tables@)
                == Result::<Seq<Seq<u8>>, Seq<u8>>::Err(e@),
        }),
{
    match w.operation {
        Operation::Get => match parse_query(&w.body) {
            Option::None => Result::Err(parse_error_payload()),
            Option::Some(t) => match translate_get(&t, schema) {
                Result::Err(e) => Result::Err(translation_error_payload(e)),
                Result::Ok(v) => Result::Ok(v),
            },
        },
        Operation::Add => match parse_mutation_query(&w.body) {
            Option::None => Result::Err(parse_error_payload()),
            Option::Some(t) => match translate_add(&t, schema) {
                Result::Err(e) => Result::Err(translation_error_payload(e)),
                Result::Ok(v) => Result::Ok(v),
            },
        },
        Operation::Update => match parse_mutation_query(&w.body) {
            Option::None => Result::Err(parse_error_payload()),
            Option::Some(t) => match translate_update(&t, schema) {
                Result::Err(e) => Result::Err(translation_error_payload(e)),
                Result::Ok(s) => {
                    let mut v: Vec<Vec<u8>> = Vec::new();
                    v.push(s);
                    proof {
                        assert(stmts_view(v@) =~= seq![v@[0]@]);
                    }
                    Result::Ok(v)
                },
            },
        },
        Operation::Delete => match parse_mutation_query(&w.body) {
            Option::None => Result::Err(parse_error_payload()),
            Option::Some(t) => match translate_delete(&t, schema) {
                Result::Err(e) => Result::Err(translation_error_payload(e)),
                Result::Ok(s) => {
                    let mut v: Vec<Vec<u8>> = Vec::new();
                    v.push(s);
                    proof {
                        assert(stmts_view(v@) =~= seq![v@[0]@]);
                    }
                    Result::Ok(v)
                },
            },
        },
    }
}

} // verus!
