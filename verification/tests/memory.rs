use taskline::backends::memory::MemoryQueue;
use taskline::prelude::{CommitBackend, Committer, Consumer, DequeuBackend, EnqueuBackend, Producer};

#[test]
fn memory_test_consumer() {
    let mut backend = MemoryQueue::new();

    backend.enqueue(&"task".to_string(), &1.).unwrap();
    backend.enqueue(&"task".to_string(), &1.).unwrap();

    let tasks = backend.dequeue(&1.).unwrap();
    assert_eq!(tasks.len(), 1);
    for task in tasks {
        assert_eq!(task, "task".to_string());
        backend.commit(&task).unwrap();
    }
    assert!(backend.read(&f64::INFINITY).is_empty());
}

#[test]
fn read_gives_due_tasks_in_write_order() {
    let mut backend: MemoryQueue<u32, u64> = MemoryQueue::new();
    backend.write(&10, &5);
    backend.write(&20, &1);
    backend.write(&30, &9);
    backend.write(&40, &3);
    assert_eq!(backend.read(&0), Vec::<u32>::new());
    assert_eq!(backend.read(&1), vec![20]);
    assert_eq!(backend.read(&4), vec![20, 40]);
    assert_eq!(backend.read(&5), vec![10, 20, 40]);
    assert_eq!(backend.read(&100), vec![10, 20, 30, 40]);
}

#[test]
fn read_does_not_remove() {
    let mut backend: MemoryQueue<u32, u64> = MemoryQueue::new();
    backend.write(&1, &1);
    assert_eq!(backend.read(&1), vec![1]);
    assert_eq!(backend.read(&1), vec![1]);
}

#[test]
fn write_replaces_the_same_task() {
    let mut backend: MemoryQueue<String, i64> = MemoryQueue::new();
    backend.write(&"a".to_string(), &1);
    backend.write(&"b".to_string(), &2);
    backend.write(&"a".to_string(), &10);
    assert_eq!(backend.read(&5), vec!["b".to_string()]);
    assert_eq!(backend.read(&10), vec!["b".to_string(), "a".to_string()]);
}

#[test]
fn delete_removes_only_that_task() {
    let mut backend: MemoryQueue<u8, u8> = MemoryQueue::new();
    backend.write(&1, &1);
    backend.write(&2, &1);
    backend.write(&3, &1);
    backend.delete(&2);
    assert_eq!(backend.read(&1), vec![1, 3]);
    backend.delete(&2);
    assert_eq!(backend.read(&1), vec![1, 3]);
    backend.delete(&9);
    assert_eq!(backend.read(&1), vec![1, 3]);
}

#[test]
fn delete_after_write_leaves_nothing_of_it() {
    let mut backend: MemoryQueue<u8, u8> = MemoryQueue::default();
    backend.write(&7, &3);
    backend.delete(&7);
    assert!(backend.read(&u8::MAX).is_empty());
}

#[test]
fn new_backend_is_empty() {
    let backend: MemoryQueue<u8, u8> = MemoryQueue::new();
    assert!(backend.read(&u8::MAX).is_empty());
}

#[test]
fn negative_and_equal_scores() {
    let mut backend: MemoryQueue<char, i32> = MemoryQueue::new();
    backend.write(&'x', &-5);
    backend.write(&'y', &0);
    assert_eq!(backend.read(&-5), vec!['x']);
    assert_eq!(backend.read(&-6), Vec::<char>::new());
    assert_eq!(backend.read(&0), vec!['x', 'y']);
}

#[test]
fn producer_consumer_committer_pass_through() {
    let mut producer = Producer::new(MemoryQueue::<u32, u64>::new());
    assert_eq!(producer.schedule(&1, &10), Ok(()));

    let mut backend = MemoryQueue::<u32, u64>::new();
    backend.write(&1, &10);
    backend.write(&2, &20);
    let consumer = Consumer::new(backend.clone());
    assert_eq!(consumer.poll(&15), Ok(vec![1]));
    assert_eq!(consumer.poll(&5), Ok(vec![]));

    let mut committer = Committer::new(backend);
    assert_eq!(committer.commit(&1), Ok(()));
}

#[test]
fn poll_after_schedule_gives_the_task_last() {
    let mut backend: MemoryQueue<u32, u64> = MemoryQueue::new();
    backend.enqueue(&1, &3).unwrap();
    backend.enqueue(&5, &10).unwrap();
    assert_eq!(backend.dequeue(&10), Ok(vec![1, 5]));
    assert_eq!(backend.dequeue(&11), Ok(vec![1, 5]));
    assert_eq!(backend.dequeue(&9), Ok(vec![1]));
    backend.enqueue(&1, &12).unwrap();
    assert_eq!(backend.dequeue(&12), Ok(vec![5, 1]));
}

#[test]
fn clones_are_separate_queues() {
    let mut backend: MemoryQueue<u32, u64> = MemoryQueue::new();
    backend.write(&1, &1);
    let copy = backend.clone();
    backend.write(&2, &1);
    assert_eq!(copy.read(&1), vec![1]);
    assert_eq!(backend.read(&1), vec![1, 2]);
}

#[test]
fn string_tasks_written_twice_read_once() {
    let mut backend: MemoryQueue<String, u64> = MemoryQueue::new();
    backend.write(&"task".to_string(), &1);
    backend.write(&"task".to_string(), &1);
    assert_eq!(backend.read(&1), vec!["task".to_string()]);
    backend.delete(&"task".to_string());
    assert!(backend.read(&u64::MAX).is_empty());
}
