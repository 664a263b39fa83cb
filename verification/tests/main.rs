use std::cell::RefCell;
use std::rc::Rc;

use taskline::client::TaskClient;
use taskline::committer::Committer;
use taskline::consumer::Consumer;
use taskline::prelude::{CommitBackend, DequeuBackend, EnqueuBackend};
use taskline::producer::Producer;
use taskline::tasks::QueuedTask;

#[derive(Clone)]
struct MemBackend {
    queue: Rc<RefCell<Vec<i32>>>,
}

impl MemBackend {
    fn new() -> MemBackend {
        MemBackend { queue: Rc::new(RefCell::new(Vec::new())) }
    }
}

impl DequeuBackend<i32, (), ()> for MemBackend {
    fn dequeued(&self, _score: (), res: Result<Vec<i32>, ()>) -> bool {
        res.is_ok()
    }

    fn dequeue(&self, _score: &()) -> Result<Vec<i32>, ()> {
        Ok(vec![*self.queue.borrow().first().unwrap()])
    }
}

impl EnqueuBackend<i32, (), ()> for MemBackend {
    fn enqueued(&self, task: i32, _score: (), after: Self, res: Result<(), ()>) -> bool {
        res.is_ok() && after.queue.borrow().contains(&task)
    }

    fn enqueue(&mut self, task: &i32, _score: &()) -> Result<(), ()> {
        self.queue.borrow_mut().push(*task);
        Ok(())
    }
}

impl CommitBackend<i32, ()> for MemBackend {
    fn committed(&self, task: i32, after: Self, res: Result<(), ()>) -> bool {
        res.is_ok() && !after.queue.borrow().contains(&task)
    }

    fn commit(&mut self, task: &i32) -> Result<(), ()> {
        self.queue.borrow_mut().retain(|x| *x != *task);
        Ok(())
    }
}

#[test]
fn main_test_consumer() {
    let backend = MemBackend::new();
    let mut client = Producer::new(backend.clone());
    let consumer = Consumer::new(backend.clone());
    let mut committer = Committer::new(backend.clone());

    client.schedule(&1, &()).unwrap();

    let tasks = consumer.poll(&()).unwrap();
    for task in tasks {
        assert_eq!(task, 1);
        committer.commit(&task).unwrap();
    }
    assert!(backend.queue.borrow().is_empty());
}

#[derive(Clone, Default)]
struct Recorder {
    seen: Rc<RefCell<Vec<QueuedTask>>>,
}

impl EnqueuBackend<QueuedTask, (), String> for Recorder {
    fn enqueued(&self, task: QueuedTask, _score: (), after: Self, _res: Result<(), String>) -> bool {
        after.seen.borrow().last() == Some(&task)
    }

    fn enqueue(&mut self, task: &QueuedTask, _score: &()) -> Result<(), String> {
        self.seen.borrow_mut().push(task.clone());
        Err("recorded".to_string())
    }
}

#[test]
fn task_client_enqueues_and_drops_the_answer() {
    let recorder = Recorder::default();
    let mut client = TaskClient::new(recorder.clone());
    let a = QueuedTask { name: "a".to_string(), request: "1".to_string() };
    let b = QueuedTask { name: "b".to_string(), request: "2".to_string() };
    client.call(a.clone());
    client.schedule(b.clone(), 99);
    assert_eq!(*recorder.seen.borrow(), vec![a, b]);
}
