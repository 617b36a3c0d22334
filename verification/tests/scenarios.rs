use async_lib::channel::{channel, Channel, Receiver, Sender};
use async_lib::executor::Executor;
use async_lib::task::{Context, SimpleFuture, State};
use std::sync::{Arc, Condvar, Mutex};
use std::time::{Duration, Instant};

/// Blocks the calling thread for `millis` milliseconds.
fn pause(millis: u64) {
    let gate = Mutex::new(());
    let bell = Condvar::new();
    let limit = Duration::from_millis(millis);
    let start = Instant::now();
    let mut held = gate.lock().unwrap();
    while start.elapsed() < limit {
        held = bell.wait_timeout(held, limit - start.elapsed()).unwrap().0;
    }
}

/// Adds one to a shared counter at each poll until the counter is at 5.
struct Incrementer {
    shared: Arc<Mutex<i32>>,
}

impl SimpleFuture for Incrementer {
    type Output = ();

    fn poll(&mut self, _ctx: &mut Context) -> State<()> {
        let mut counter = self.shared.lock().unwrap();
        if *counter < 5 {
            *counter += 1;
            State::Pending
        } else {
            State::Ready(())
        }
    }
}

/// Sends `count`, `count + 1`, ... below `max_count`, one value per poll.
struct Producer {
    sender: Sender<i32>,
    count: i32,
    max_count: i32,
}

impl SimpleFuture for Producer {
    type Output = ();

    fn poll(&mut self, _ctx: &mut Context) -> State<()> {
        if self.count < self.max_count {
            self.sender.send(self.count);
            self.count += 1;
            pause(100);
            State::Pending
        } else {
            State::Ready(())
        }
    }
}

/// Collects what it receives until it holds five values.
struct Consumer {
    receiver: Receiver<i32>,
    received: Arc<Mutex<Vec<i32>>>,
}

impl SimpleFuture for Consumer {
    type Output = ();

    fn poll(&mut self, ctx: &mut Context) -> State<()> {
        match self.receiver.poll(ctx) {
            State::Ready(value) => {
                self.received.lock().unwrap().push(value);
                State::Pending
            }
            State::Pending => {
                if self.received.lock().unwrap().len() >= 5 {
                    State::Ready(())
                } else {
                    State::Pending
                }
            }
        }
    }
}

/// Waits for the response to one request.
struct Request {
    id: usize,
    receiver: Receiver<String>,
    completed: Arc<Mutex<Vec<usize>>>,
    responses: Arc<Mutex<Vec<String>>>,
}

impl SimpleFuture for Request {
    type Output = ();

    fn poll(&mut self, ctx: &mut Context) -> State<()> {
        match self.receiver.poll(ctx) {
            State::Ready(response) => {
                self.completed.lock().unwrap().push(self.id);
                self.responses.lock().unwrap().push(response);
                State::Ready(())
            }
            State::Pending => State::Pending,
        }
    }
}

/// Stands for the world outside: answers each request when its time has
/// come, counted from the first poll.
struct Network {
    started: Option<Instant>,
    due: Vec<(u64, String, Sender<String>)>,
}

impl SimpleFuture for Network {
    type Output = ();

    fn poll(&mut self, _ctx: &mut Context) -> State<()> {
        let started = *self.started.get_or_insert_with(Instant::now);
        while !self.due.is_empty() && started.elapsed() >= Duration::from_millis(self.due[0].0) {
            let (_, url, sender) = self.due.remove(0);
            sender.send(format!("status: success, url: {}, data: ok", url));
        }
        if self.due.is_empty() {
            State::Ready(())
        } else {
            State::Pending
        }
    }
}

/// Answers each request at the poll whose number stands beside it.
struct Script {
    polls: u32,
    due: Vec<(u32, String, Sender<String>)>,
}

impl SimpleFuture for Script {
    type Output = ();

    fn poll(&mut self, _ctx: &mut Context) -> State<()> {
        self.polls += 1;
        while !self.due.is_empty() && self.polls >= self.due[0].0 {
            let (_, url, sender) = self.due.remove(0);
            sender.send(format!("answer to {}", url));
        }
        if self.due.is_empty() {
            State::Ready(())
        } else {
            State::Pending
        }
    }
}

#[test]
fn three_tasks_sharing_a_counter_stop_at_five() {
    let shared = Arc::new(Mutex::new(0));
    let mut executor = Executor::new();
    for _ in 1..=3 {
        executor.spawn(Incrementer { shared: shared.clone() });
    }
    executor.run();
    assert_eq!(*shared.lock().unwrap(), 5);
}

#[test]
fn consumer_collects_the_produced_values_in_order() {
    let received = Arc::new(Mutex::new(Vec::new()));
    let link = Channel::new();
    let mut executor = Executor::new();
    executor.spawn(Producer { sender: link.sender(), count: 0, max_count: 5 });
    executor.spawn(Consumer { receiver: link.receiver(), received: received.clone() });
    executor.run();
    assert_eq!(*received.lock().unwrap(), vec![0, 1, 2, 3, 4]);
}

#[test]
fn requests_complete_in_the_order_of_their_responses() {
    let completed = Arc::new(Mutex::new(Vec::new()));
    let responses = Arc::new(Mutex::new(Vec::new()));
    let mut executor = Executor::new();
    let mut due = Vec::new();
    for (id, delay) in [(1usize, 1000u64), (2, 2000), (3, 3000)] {
        let (sender, receiver) = channel::<String>();
        executor.spawn(Request {
            id,
            receiver,
            completed: completed.clone(),
            responses: responses.clone(),
        });
        due.push((delay, format!("http://api{}.example.com", id), sender));
    }
    executor.spawn(Network { started: None, due });
    let start = Instant::now();
    executor.run();
    assert!(start.elapsed() >= Duration::from_millis(3000));
    assert_eq!(*completed.lock().unwrap(), vec![1, 2, 3]);
    assert_eq!(
        *responses.lock().unwrap(),
        vec![
            "status: success, url: http://api1.example.com, data: ok".to_string(),
            "status: success, url: http://api2.example.com, data: ok".to_string(),
            "status: success, url: http://api3.example.com, data: ok".to_string(),
        ]
    );
}

#[test]
fn requests_answered_out_of_spawn_order_complete_as_answered() {
    let completed = Arc::new(Mutex::new(Vec::new()));
    let responses = Arc::new(Mutex::new(Vec::new()));
    let mut executor = Executor::new();
    let mut due = Vec::new();
    for (id, poll) in [(1usize, 6u32), (2, 2), (3, 4)] {
        let (sender, receiver) = channel::<String>();
        executor.spawn(Request {
            id,
            receiver,
            completed: completed.clone(),
            responses: responses.clone(),
        });
        due.push((poll, format!("u{}", id), sender));
    }
    due.sort_by_key(|entry| entry.0);
    executor.spawn(Script { polls: 0, due });
    executor.run();
    assert_eq!(*completed.lock().unwrap(), vec![2, 3, 1]);
    assert_eq!(
        *responses.lock().unwrap(),
        vec!["answer to u2".to_string(), "answer to u3".to_string(), "answer to u1".to_string()]
    );
}
