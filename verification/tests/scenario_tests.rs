use cute::client::{ClientEvent, ClientSession};
use cute::errors::{CuteError, CuteErrorCode};
use cute::packet::MAX_PAYLOAD_SIZE;
use cute::procs::ProcManager;
use cute::server::{unary_reply, ServerAction, ServerPeer};
use cute::tasks::{BasicTaskConstructor, Task};
use cute::worker::{Directive, TaskRun};

/// The shared state of the tasks.
struct Context {
    test: i32,
    destroyed: u32,
}

/// Counts up in the context and hands the count out.
struct EchoTask;

impl Task for EchoTask {
    fn new(_input: Option<Box<[u8]>>) -> Result<Self, CuteError> {
        Ok(EchoTask)
    }
}

impl EchoTask {
    fn execute(&mut self, ctx: &mut Context) -> Result<Option<Vec<u8>>, CuteError> {
        ctx.test += 1;
        let bytes = bincode::serialize(&ctx.test)
            .map_err(|e| CuteError::serialize_invalid(&e.to_string()))?;
        Ok(Some(bytes))
    }

    fn destroy(&mut self, ctx: &mut Context) {
        ctx.destroyed += 1;
    }
}

fn count_of(bytes: &[u8]) -> i32 {
    bincode::deserialize::<i32>(bytes).unwrap()
}

type Registry = ProcManager<BasicTaskConstructor<EchoTask, Context>>;

fn registry() -> Registry {
    let mut procs = ProcManager::new();
    procs.insert(0, BasicTaskConstructor::new());
    procs
}

/// Does for the server what its runtime does with a unary request.
fn run_unary(procs: &Registry, ctx: &mut Context, protocol: u32, input: Vec<u8>) -> Vec<u8> {
    let outcome = match procs.get_task(protocol, Some(input.into_boxed_slice())) {
        Ok(mut task) => {
            let outcome = task.execute(ctx);
            task.destroy(ctx);
            outcome
        }
        Err(e) => Err(e),
    };
    unary_reply(protocol, outcome)
}

#[test]
fn three_unary_calls_count_one_two_three() {
    let procs = registry();
    let mut ctx = Context { test: 0, destroyed: 0 };
    let mut server = ServerPeer::new();
    let mut client = ClientSession::new();
    for expected in [1, 2, 3] {
        let request = client.client_unary(0, None).unwrap();
        let actions = server.receive(&request);
        assert_eq!(actions.len(), 1);
        let reply = match actions.into_iter().next().unwrap() {
            ServerAction::RunUnary { protocol, input } => {
                assert_eq!(protocol, 0);
                assert_eq!(input, vec![0, 0, 0, 0]);
                run_unary(&procs, &mut ctx, protocol, input)
            }
            other => panic!("a run was expected, not {:?}", other),
        };
        let events = client.receive(&reply);
        assert!(matches!(events[..], [ClientEvent::Reply { protocol: 0 }]));
        let answer = client.take_reply(0).unwrap();
        assert_eq!(count_of(&answer), expected);
    }
    assert_eq!(ctx.test, 3);
    assert_eq!(ctx.destroyed, 3);
}

#[test]
fn a_unary_call_for_an_unknown_key_fails_alone() {
    let procs = registry();
    let mut ctx = Context { test: 0, destroyed: 0 };
    let mut server = ServerPeer::new();
    let mut client = ClientSession::new();

    let e = procs.get_task(5, None).err().unwrap();
    assert_eq!(e.code, CuteErrorCode::NotFound);
    assert_eq!(e.message, "Task \"5\" not found");

    let actions = server.receive(&client.client_unary(5, None).unwrap());
    let reply = match actions.into_iter().next().unwrap() {
        ServerAction::RunUnary { protocol, input } => run_unary(&procs, &mut ctx, protocol, input),
        other => panic!("a run was expected, not {:?}", other),
    };
    assert!(reply.is_empty());
    assert_eq!(ctx.test, 0);

    // the registered key answers as if nothing had happened
    let actions = server.receive(&client.client_unary(0, None).unwrap());
    let reply = match actions.into_iter().next().unwrap() {
        ServerAction::RunUnary { protocol, input } => run_unary(&procs, &mut ctx, protocol, input),
        other => panic!("a run was expected, not {:?}", other),
    };
    client.receive(&reply);
    assert_eq!(count_of(&client.take_reply(0).unwrap()), 1);
}

/// A stream as the server's runtime holds it.
struct RunningStream {
    protocol: u32,
    stream: u64,
    task: EchoTask,
    run: TaskRun,
    stop: bool,
}

impl RunningStream {
    /// One iteration: the bytes to write, if the stream goes on.
    fn tick(&mut self, server: &mut ServerPeer, ctx: &mut Context) -> Option<Vec<u8>> {
        match self.run.poll(self.stop) {
            Directive::Execute => {
                let settled = self.run.settle(self.task.execute(ctx));
                let out = match settled.item {
                    Some(item) => server.stream_item(self.protocol, self.stream, item),
                    None => Vec::new(),
                };
                if settled.destroy {
                    self.task.destroy(ctx);
                }
                Some(out)
            }
            Directive::Destroy => {
                self.task.destroy(ctx);
                None
            }
            Directive::Done => None,
        }
    }
}

#[test]
fn a_stream_that_is_cancelled_after_two_items_brings_no_more() {
    let procs = registry();
    let mut ctx = Context { test: 0, destroyed: 0 };
    let mut server = ServerPeer::new();
    let mut client = ClientSession::new();

    let request = client.client_stream(0, None).unwrap();
    let actions = server.receive(&request);
    assert_eq!(actions.len(), 1);
    let mut running = match actions.into_iter().next().unwrap() {
        ServerAction::OpenStream { protocol, stream, input } => RunningStream {
            protocol,
            stream,
            task: procs.get_task(protocol, Some(input.into_boxed_slice())).unwrap(),
            run: TaskRun::new(),
            stop: false,
        },
        other => panic!("a stream was to be opened, not {:?}", other),
    };

    let mut received = Vec::new();
    while received.len() < 2 {
        let bytes = running.tick(&mut server, &mut ctx).unwrap();
        for event in client.receive(&bytes) {
            match event {
                ClientEvent::Item { protocol: 0, payload } => received.push(count_of(&payload)),
                other => panic!("an item was expected, not {:?}", other),
            }
        }
    }
    assert_eq!(received, vec![1, 2]);

    // the client cancels
    let actions = server.receive(&client.close_stream(0));
    match actions[..] {
        [ServerAction::CancelStream { protocol: 0, stream }] => {
            assert_eq!(stream, running.stream);
            running.stop = true;
        }
        _ => panic!("the stream was to be cancelled"),
    }

    // an execution that was under way may still finish: nothing of it is written
    let late = server.stream_item(0, running.stream, Ok(vec![9, 9, 9, 9]));
    assert!(late.is_empty());
    assert!(client.receive(&late).is_empty());

    // at its next iteration the stream sees the signal
    assert!(running.tick(&mut server, &mut ctx).is_none());
    assert_eq!(ctx.destroyed, 1);
    for _ in 0..5 {
        assert!(running.tick(&mut server, &mut ctx).is_none());
    }
    assert_eq!(ctx.destroyed, 1);
    assert_eq!(ctx.test, 2);
}

#[test]
fn a_payload_of_three_frames_arrives_whole() {
    let payload: Vec<u8> = (0..(3 * 65536usize)).map(|i| (i * 31 % 251) as u8).collect();
    assert!(payload.len() > 3 * MAX_PAYLOAD_SIZE);

    // from the client to the server, in reads of 4096 bytes
    let client = ClientSession::new();
    let mut server = ServerPeer::new();
    let request = client.client_unary(6, Some(payload.clone())).unwrap();
    let mut actions = Vec::new();
    for piece in request.chunks(4096) {
        actions.extend(server.receive(piece));
    }
    assert_eq!(actions.len(), 1);
    match &actions[0] {
        ServerAction::RunUnary { protocol, input } => {
            assert_eq!(*protocol, 6);
            assert_eq!(input, &payload);
        }
        other => panic!("a run was expected, not {:?}", other),
    }

    // and back, in reads of 65536 bytes
    let mut client = ClientSession::new();
    let reply = unary_reply(6, Ok(Some(payload.clone())));
    let mut events = Vec::new();
    for piece in reply.chunks(65536) {
        events.extend(client.receive(piece));
    }
    assert_eq!(events.len(), 1);
    assert_eq!(client.take_reply(6), Some(payload));
}

#[test]
fn two_streams_on_one_connection_do_not_disturb_each_other() {
    let mut procs: Registry = ProcManager::new();
    procs.insert(0, BasicTaskConstructor::new());
    procs.insert(1, BasicTaskConstructor::new());
    let mut ctx = Context { test: 0, destroyed: 0 };
    let mut server = ServerPeer::new();
    let mut client = ClientSession::new();

    let mut open = |server: &mut ServerPeer, client: &mut ClientSession, key: u32| {
        let actions = server.receive(&client.client_stream(key, None).unwrap());
        match actions.into_iter().next().unwrap() {
            ServerAction::OpenStream { protocol, stream, input } => RunningStream {
                protocol,
                stream,
                task: procs.get_task(protocol, Some(input.into_boxed_slice())).unwrap(),
                run: TaskRun::new(),
                stop: false,
            },
            other => panic!("a stream was to be opened, not {:?}", other),
        }
    };
    let mut a = open(&mut server, &mut client, 0);
    let mut b = open(&mut server, &mut client, 1);

    let bytes = a.tick(&mut server, &mut ctx).unwrap();
    assert_eq!(client.receive(&bytes).len(), 1);
    let bytes = b.tick(&mut server, &mut ctx).unwrap();
    assert_eq!(client.receive(&bytes).len(), 1);

    server.receive(&client.close_stream(0));
    a.stop = true;
    assert!(a.tick(&mut server, &mut ctx).is_none());

    for expected in [3, 4, 5] {
        let bytes = b.tick(&mut server, &mut ctx).unwrap();
        let events = client.receive(&bytes);
        match &events[..] {
            [ClientEvent::Item { protocol: 1, payload }] => assert_eq!(count_of(payload), expected),
            _ => panic!("the other stream goes on"),
        }
    }
    assert_eq!(ctx.destroyed, 1);
}
