use swanling::calibrate::{
    requests_per_stream, server_threads, threads_for, Server, ThreadAction, Todo, TodoResponse,
    BENCHMARK_STREAMS, LISTENER_THREADS_PER_CPU, SERVER_THREADS_PER_CPU,
};

#[test]
fn new_server_is_not_started() {
    let server = Server::new();
    assert!(!server.started);
    assert_eq!(server.on_thread_setup(), ThreadAction::Launch);
}

#[test]
fn started_server_is_not_launched_again() {
    let mut server = Server::new();
    server.mark_started();
    assert!(server.started);
    assert_eq!(server.on_thread_setup(), ThreadAction::Skip);
    server.mark_started();
    assert_eq!(server.on_thread_setup(), ThreadAction::Skip);
}

#[test]
fn threads_for_multiplies() {
    assert_eq!(threads_for(8, SERVER_THREADS_PER_CPU), Some(16));
    assert_eq!(threads_for(8, LISTENER_THREADS_PER_CPU), Some(8));
    assert_eq!(threads_for(0, 2), Some(0));
}

#[test]
fn threads_for_reports_overflow() {
    assert_eq!(threads_for(usize::MAX, 2), None);
    assert_eq!(threads_for(usize::MAX / 2 + 1, 2), None);
    assert_eq!(threads_for(usize::MAX / 2, 2), Some(usize::MAX - 1));
}

#[test]
fn server_threads_follow_cpu_count() {
    let cpus = num_cpus::get();
    assert_eq!(server_threads(SERVER_THREADS_PER_CPU), Some(cpus * 2));
    assert_eq!(server_threads(LISTENER_THREADS_PER_CPU), Some(cpus));
}

#[test]
fn requests_are_split_across_streams() {
    assert_eq!(BENCHMARK_STREAMS, 4);
    assert_eq!(requests_per_stream(10000), 2500);
    assert_eq!(requests_per_stream(10), 2);
    assert_eq!(requests_per_stream(3), 0);
}

#[test]
fn todo_response_keeps_fields() {
    let todo = Todo { id: 7, name: "first todo".to_string(), checked: true };
    let response = TodoResponse::of(todo);
    assert_eq!(response.id, 7);
    assert_eq!(response.name, "first todo");
    assert!(response.checked);
}
