use graphql_pool::connection::ConnState;
use graphql_pool::connection::Connection;
use graphql_pool::connection::ConnectionError;
use graphql_pool::connection::Interest;
use graphql_pool::connection::Operation;
use graphql_pool::connection::WorkItem;
use graphql_pool::pool::ConnectionPool;
use graphql_pool::pool::ReadyOutcome;
use graphql_pool::translate::Schema;

fn b(s: &str) -> Vec<u8> {
    s.as_bytes().to_vec()
}

fn test_schema() -> Schema {
    Schema {
        database: b("startrack"),
        tables: vec![(b("Human"), vec![
            (b("id"), b("String"), false),
            (b("name"), b("String"), false),
        ])],
    }
}

#[test]
fn connection_never_holds_two_work_items() {
    let mut c = Connection::new(7);
    assert_eq!(c.state, ConnState::AwaitingDispatch);
    assert_eq!(c.interest(), Some(Interest::Writable));

    let first = WorkItem { operation: Operation::Get, body: b("{ user }") };
    assert_eq!(c.assign(first), Ok(()));
    assert_eq!(c.state, ConnState::Processing);
    assert_eq!(c.interest(), None);

    let second = WorkItem { operation: Operation::Get, body: b("{ other }") };
    assert_eq!(c.assign(second), Err(ConnectionError::Busy));
    assert_eq!(c.state, ConnState::Processing);
    assert_eq!(c.item.as_ref().unwrap().body, b("{ user }"));

    assert_eq!(c.collect(), Err(ConnectionError::NotCollectable));
    assert_eq!(c.complete(b("ok")), Ok(()));
    assert_eq!(c.state, ConnState::AwaitingCollection);
    assert_eq!(c.interest(), Some(Interest::Readable));
    assert_eq!(c.complete(b("again")), Err(ConnectionError::NotProcessing));

    assert_eq!(c.collect(), Ok(b("ok")));
    assert_eq!(c.state, ConnState::AwaitingDispatch);
    assert_eq!(c.collect(), Err(ConnectionError::NotCollectable));

    assert_eq!(c.close(), None);
    assert_eq!(c.state, ConnState::Closed);
    assert_eq!(c.assign(WorkItem { operation: Operation::Get, body: b("{ x }") }),
        Err(ConnectionError::Busy));
}

#[test]
fn tokens_increase_and_are_never_reused() {
    let mut pool = ConnectionPool::new();
    assert_eq!(pool.token_counter, 1);
    let t1 = pool.accept().unwrap();
    let t2 = pool.accept().unwrap();
    let t3 = pool.accept().unwrap();
    assert_eq!((t1, t2, t3), (1, 2, 3));

    // close the middle connection: its token is gone for good
    let idx = pool.find_connection_by_token(t2).unwrap();
    pool.remove_connection(idx);
    assert_eq!(pool.find_connection_by_token(t2), None);

    let t4 = pool.accept().unwrap();
    assert_eq!(t4, 4);
    assert!(t4 > t3);
    let tokens: Vec<usize> = pool.connections.iter().map(|c| c.token).collect();
    assert_eq!(tokens, vec![1, 3, 4]);
}

#[test]
fn ready_dispatches_oldest_request_first() {
    let mut pool = ConnectionPool::new();
    let tok = pool.accept().unwrap();
    pool.enqueue_request(WorkItem { operation: Operation::Get, body: b("{ first }") });
    pool.enqueue_request(WorkItem { operation: Operation::Get, body: b("{ second }") });

    // output readiness with work queued: the oldest item is attached
    assert_eq!(pool.on_ready(tok, false, true), ReadyOutcome::Dispatched);
    let idx = pool.find_connection_by_token(tok).unwrap();
    assert_eq!(pool.connections[idx].item.as_ref().unwrap().body, b("{ first }"));
    assert_eq!(pool.request_messages.len(), 1);

    // readiness for a token nobody holds
    assert_eq!(pool.on_ready(99, false, true), ReadyOutcome::NoConnection);

    // a processing connection ignores further output readiness
    assert_eq!(pool.on_ready(tok, false, true), ReadyOutcome::Idle);
    assert_eq!(pool.request_messages.len(), 1);
}

#[test]
fn work_item_resolves_with_success_or_translation_error() {
    let schema = test_schema();
    let mut pool = ConnectionPool::new();
    let tok = pool.accept().unwrap();

    // a well-formed insert against a known table yields its statements
    pool.enqueue_request(WorkItem {
        operation: Operation::Add,
        body: b("{ Human { id: 1 name: Luke } }"),
    });
    assert_eq!(pool.on_ready(tok, false, true), ReadyOutcome::Dispatched);
    let idx = pool.find_connection_by_token(tok).unwrap();
    let plan = pool.connections[idx].plan(&schema);
    assert_eq!(plan, Ok(vec![b("INSERT INTO Human (id, name) VALUES ('1', 'Luke')")]));
    // the backend ran the statements; its answer becomes the payload
    assert_eq!(pool.connections[idx].complete(b("[]")), Ok(()));
    assert_eq!(pool.on_ready(tok, true, false), ReadyOutcome::Collected);
    assert_eq!(pool.pop_response(), Some(b("[]")));
    assert_eq!(pool.pop_response(), None);

    // the same text against an unknown table resolves with an error payload
    pool.enqueue_request(WorkItem {
        operation: Operation::Add,
        body: b("{ Starship { id: 1 name: Falcon } }"),
    });
    assert_eq!(pool.on_ready(tok, false, true), ReadyOutcome::Dispatched);
    let idx = pool.find_connection_by_token(tok).unwrap();
    let plan = pool.connections[idx].plan(&schema);
    assert_eq!(plan, Err(b("error: table")));
    let payload = plan.unwrap_err();
    assert_eq!(pool.connections[idx].complete(payload), Ok(()));
    assert_eq!(pool.on_ready(tok, true, false), ReadyOutcome::Collected);
    assert_eq!(pool.pop_response(), Some(b("error: table")));

    // malformed text resolves with a parse-error payload
    pool.enqueue_request(WorkItem { operation: Operation::Get, body: b("{ user (id:1 }") });
    assert_eq!(pool.on_ready(tok, false, true), ReadyOutcome::Dispatched);
    let idx = pool.find_connection_by_token(tok).unwrap();
    assert_eq!(pool.connections[idx].plan(&schema), Err(b("error: parse")));
}

#[test]
fn close_returns_the_held_work_item() {
    let mut c = Connection::new(5);
    let item = WorkItem { operation: Operation::Get, body: b("{ user }") };
    assert_eq!(c.assign(item), Ok(()));
    let dropped = c.close();
    assert_eq!(dropped, Some(WorkItem { operation: Operation::Get, body: b("{ user }") }));
    assert_eq!(c.state, ConnState::Closed);
}

#[test]
fn closing_a_connection_requeues_its_work_item() {
    let mut pool = ConnectionPool::new();
    let tok = pool.accept().unwrap();
    pool.enqueue_request(WorkItem { operation: Operation::Get, body: b("{ a }") });
    pool.enqueue_request(WorkItem { operation: Operation::Get, body: b("{ b }") });
    assert_eq!(pool.on_ready(tok, false, true), ReadyOutcome::Dispatched);
    // the socket fails while `{ a }` is in flight: it goes back to the front
    assert!(pool.close_connection(tok));
    assert_eq!(pool.find_connection_by_token(tok), None);
    let bodies: Vec<Vec<u8>> = pool.request_messages.iter().map(|w| w.body.clone()).collect();
    assert_eq!(bodies, vec![b("{ a }"), b("{ b }")]);
    assert!(!pool.close_connection(tok));
}

#[test]
fn closing_a_connection_flushes_its_buffered_response() {
    let mut pool = ConnectionPool::new();
    let tok = pool.accept().unwrap();
    pool.enqueue_request(WorkItem { operation: Operation::Get, body: b("{ a }") });
    assert_eq!(pool.on_ready(tok, false, true), ReadyOutcome::Dispatched);
    let idx = pool.find_connection_by_token(tok).unwrap();
    assert_eq!(pool.connections[idx].complete(b("done")), Ok(()));
    // the socket fails before collection: the response still reaches the queue
    assert!(pool.close_connection(tok));
    assert_eq!(pool.pop_response(), Some(b("done")));
}
