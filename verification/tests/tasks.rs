use taskline::tasks::{QueuedTask, Tasks};

#[test]
fn test() {
    let mut tasks = Tasks::new();
    async fn func(_s: String) {}
    tasks.add_task("test", func);
}

async fn first(_s: String) {}

#[test]
fn get_task_finds_registered_handler() {
    let mut tasks = Tasks::new();
    tasks.add_task("one", first);
    tasks.add_task("two", first);
    assert!(tasks.get_task("one").is_some());
    assert!(tasks.get_task("two").is_some());
    assert!(tasks.get_task("three").is_none());
    assert_eq!(tasks.tasks.len(), 2);
    assert_eq!(tasks.tasks[1].0, "two");
}

#[test]
fn get_task_on_empty_registry() {
    let tasks: Tasks<fn(String) -> std::future::Ready<()>, std::future::Ready<()>> = Tasks::new();
    assert!(tasks.get_task("test").is_none());
    assert!(tasks.get_task("").is_none());
}

#[test]
fn get_task_compares_whole_names() {
    let mut tasks = Tasks::new();
    tasks.add_task("send_email", first);
    assert!(tasks.get_task("send").is_none());
    assert!(tasks.get_task("send_email_now").is_none());
    assert!(tasks.get_task("send_email").is_some());
}

#[test]
fn get_task_gives_the_handler_added_under_the_name() {
    fn double(x: String) -> std::future::Ready<()> {
        assert_eq!(x, "double");
        std::future::ready(())
    }
    fn triple(x: String) -> std::future::Ready<()> {
        assert_eq!(x, "triple");
        std::future::ready(())
    }
    let mut tasks: Tasks<fn(String) -> std::future::Ready<()>, std::future::Ready<()>> = Tasks::new();
    tasks.add_task("double", double);
    tasks.add_task("triple", triple);
    let f = tasks.get_task("triple").unwrap();
    let _ = f("triple".to_string());
    let g = tasks.get_task("double").unwrap();
    let _ = g("double".to_string());
}

#[test]
fn queued_task_clones_equal() {
    let t = QueuedTask { name: "email".to_string(), request: "{}".to_string() };
    let c = t.clone();
    assert_eq!(t, c);
}
