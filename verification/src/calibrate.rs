//! The calibration server: the guard that keeps a server from being
//! started twice, how many server threads to run, and the to-do payloads
//! that it exchanges.

use vstd::prelude::*;

verus! {

/// The address the calibration servers listen on.
pub const SERVER_ADDRESS: &'static str = "127.0.0.1:8888";

/// Server threads started per CPU by `init_server`.
pub const SERVER_THREADS_PER_CPU: usize = 2;

/// Listener threads started per CPU by `prepare_servers`.
pub const LISTENER_THREADS_PER_CPU: usize = 1;

/// Guards server restarts during calibration loops.
#[derive(Debug)]
pub struct Server {
    /// Whether a listener has already been served from this guard.
    pub started: bool,
}

/// What a freshly set-up server thread does.
#[derive(Debug, Clone, Copy, PartialEq, Eq, Structural)]
pub enum ThreadAction {
    /// Build a runtime, bind the listener and serve.
    Launch,
    /// A server already runs: leave.
    Skip,
}

/// The decision of a server thread for the guard `server`.
pub open spec fn setup_action(server: Server) -> ThreadAction {
    if server.started {
        ThreadAction::Skip
    } else {
        ThreadAction::Launch
    }
}

impl Server {
    /// A guard under which no server has started yet.
    pub fn new() -> (server: Server)
        ensures
            !server.started,
    {
        Server { started: false }
    }

    /// What a server thread does when it is set up: launch a server only
    /// if none has started under this guard.
    pub fn on_thread_setup(&self) -> (action: ThreadAction)
        ensures
            action == setup_action(*self),
    {
        if self.started {
            ThreadAction::Skip
        } else {
            ThreadAction::Launch
        }
    }

    /// Records that a server has been served under this guard.
    pub fn mark_started(&mut self)
        ensures
            final(self).started,
    {
        self.started = true;
    }
}

/// A new guard launches a server on its first set-up; once the guard is
/// marked started, no later set-up launches another.
pub proof fn lemma_server_launches_once(server: Server)
    ensures
        setup_action(Server { started: false }) == ThreadAction::Launch,
        setup_action(Server { started: true, ..server }) == ThreadAction::Skip,
{
}

/// The number of threads for `cpus` CPUs at `per_cpu` threads each, when it
/// fits in a `usize`.
pub open spec fn thread_total(cpus: int, per_cpu: int) -> Option<usize> {
    if 0 <= cpus * per_cpu <= usize::MAX {
        Some((cpus * per_cpu) as usize)
    } else {
        None
    }
}

/// The thread count is the product of the CPU count and the threads per
/// CPU whenever that product fits in a `usize`, and there is none
/// otherwise.
pub proof fn lemma_thread_total_is_product(cpus: int, per_cpu: int)
    requires
        0 <= cpus,
        0 <= per_cpu,
    ensures
        cpus * per_cpu <= usize::MAX ==> thread_total(cpus, per_cpu) == Some(
            (cpus * per_cpu) as usize,
        ),
        cpus * per_cpu > usize::MAX ==> thread_total(cpus, per_cpu) is None,
{
    assert(0 <= cpus * per_cpu) by (nonlinear_arith)
        requires
            0 <= cpus,
            0 <= per_cpu,
    ;
}

/// One CPU runs exactly its threads per CPU, and no threads per CPU means
/// no threads, whatever the CPU count.
pub proof fn lemma_thread_total_units(cpus: usize, per_cpu: usize)
    ensures
        thread_total(1, per_cpu as int) == Some(per_cpu),
        thread_total(cpus as int, 0) == Some(0usize),
{
}

/// One more CPU adds exactly one CPU's threads, as long as the count fits.
pub proof fn lemma_thread_total_step(cpus: int, per_cpu: int)
    requires
        0 <= cpus,
        0 <= per_cpu,
        (cpus + 1) * per_cpu <= usize::MAX,
    ensures
        thread_total(cpus, per_cpu) is Some,
        thread_total(cpus + 1, per_cpu) == Some(
            (thread_total(cpus, per_cpu).unwrap() + per_cpu) as usize,
        ),
{
    assert((cpus + 1) * per_cpu == cpus * per_cpu + per_cpu && 0 <= cpus * per_cpu) by (
    nonlinear_arith)
        requires
            0 <= cpus,
            0 <= per_cpu,
    ;
}

/// Counting CPUs times threads or threads times CPUs gives the same total.
pub proof fn lemma_thread_total_symmetric(cpus: int, per_cpu: int)
    ensures
        thread_total(cpus, per_cpu) == thread_total(per_cpu, cpus),
{
    assert(cpus * per_cpu == per_cpu * cpus) by (nonlinear_arith);
}

/// The number of logical CPUs that `num_cpus::get` reports. It depends on
/// the machine and on the process's affinity and cgroup quota; the one
/// claim is the documented one, that it is at least 1.
#[verifier::external_body]
fn available_cpus() -> (cpus: usize)
    ensures
        cpus >= 1,
{
    num_cpus::get()
}

/// The number of threads for `cpus` CPUs at `per_cpu` threads each; `None`
/// where the product does not fit in a `usize`.
pub fn threads_for(cpus: usize, per_cpu: usize) -> (threads: Option<usize>)
    ensures
        threads == thread_total(cpus as int, per_cpu as int),
        cpus * per_cpu <= usize::MAX ==> threads == Some((cpus * per_cpu) as usize),
        cpus * per_cpu > usize::MAX ==> threads is None,
{
    proof {
        assert(0 <= cpus * per_cpu) by (nonlinear_arith);
    }
    cpus.checked_mul(per_cpu)
}

/// The number of threads to run on this machine at `per_cpu` threads per
/// CPU that `num_cpus` reports (at least one CPU); `None` where that number
/// does not fit in a `usize`.
pub fn server_threads(per_cpu: usize) -> (threads: Option<usize>)
    ensures
        exists|cpus: usize|
            cpus >= 1 && threads == #[trigger] thread_total(cpus as int, per_cpu as int),
{
    let cpus = available_cpus();
    let threads = threads_for(cpus, per_cpu);
    assert(threads == thread_total(cpus as int, per_cpu as int));
    threads
}

/// The number of request streams the capacity benchmark runs side by side.
pub const BENCHMARK_STREAMS: usize = 4;

/// The requests each stream of the capacity benchmark makes out of `count`
/// in all: an equal share, rounded down.
pub fn requests_per_stream(count: usize) -> (share: usize)
    ensures
        share == count / BENCHMARK_STREAMS,
{
    count / BENCHMARK_STREAMS
}

/// A to-do item as a client sends it.
#[derive(Debug)]
pub struct Todo {
    pub id: i32,
    pub name: String,
    pub checked: bool,
}

/// A to-do item as the server answers it.
#[derive(Debug)]
pub struct TodoResponse {
    pub id: i32,
    pub name: String,
    pub checked: bool,
}

impl TodoResponse {
    /// The answer for `todo`: the same id, name and state.
    pub fn of(todo: Todo) -> (response: TodoResponse)
        ensures
            response.id == todo.id,
            response.name@ == todo.name@,
            response.checked == todo.checked,
    {
        TodoResponse { id: todo.id, name: todo.name, checked: todo.checked }
    }
}

} // verus!
