//! CPU pinning of the supervisor and its workers: the plan that binds the
//! main process and each worker to a core, round robin over the machine's
//! cores.  Applying the plan is a system call and lives outside the
//! library.

use vstd::prelude::*;

use crate::pool::WorkerSession;

verus! {

/// Relies on num_cpus::get: the number of logical CPUs of this machine,
/// always at least one.
#[verifier::external_body]
fn logical_cpu_count() -> (n: usize)
    ensures
        n >= 1,
{
    num_cpus::get()
}

/// One process bound to one CPU core.
#[derive(Debug, Clone, Copy, PartialEq, Eq, Structural, Hash)]
pub struct CpuPinning {
    pub pid: i32,
    pub cpu: usize,
}

/// The pinning plan for a given core count: the main process on core
/// zero, then each worker on the next core in order, wrapping around when
/// there are more processes than cores.
pub fn cpu_assignments(workers: &Vec<WorkerSession>, main_pid: i32, max_cpu: usize) -> (r: Vec<
    CpuPinning,
>)
    requires
        max_cpu >= 1,
    ensures
        r@.len() == workers@.len() + 1,
        r@[0] == (CpuPinning { pid: main_pid, cpu: 0 }),
        forall|i: int|
            0 <= i < workers@.len() ==> r@[i + 1] == (CpuPinning {
                pid: (#[trigger] workers@[i]).pid,
                cpu: ((i + 1) % (max_cpu as int)) as usize,
            }),
{
    let mut r: Vec<CpuPinning> = Vec::new();
    r.push(CpuPinning { pid: main_pid, cpu: 0 });
    let mut cpu: usize = 1;
    let mut i: usize = 0;
    while i < workers.len()
        invariant
            max_cpu >= 1,
            0 <= i <= workers@.len(),
            r@.len() == i + 1,
            cpu == (i as int) % (max_cpu as int) + 1,
            r@[0] == (CpuPinning { pid: main_pid, cpu: 0 }),
            forall|j: int|
                0 <= j < i ==> r@[j + 1] == (CpuPinning {
                    pid: (#[trigger] workers@[j]).pid,
                    cpu: ((j + 1) % (max_cpu as int)) as usize,
                }),
        decreases workers@.len() - i,
    {
        let here: usize = if cpu >= max_cpu {
            0
        } else {
            cpu
        };
        proof {
            assert(here == (i as int + 1) % (max_cpu as int)) by (nonlinear_arith)
                requires
                    max_cpu >= 1,
                    cpu == (i as int) % (max_cpu as int) + 1,
                    here == if cpu >= max_cpu {
                        0usize
                    } else {
                        cpu
                    },
                    i >= 0,
            ;
        }
        r.push(CpuPinning { pid: workers[i].pid, cpu: here });
        cpu = here + 1;
        i += 1;
    }
    r
}

/// Binds each worker, and the main process itself, to a CPU core in round
/// robin order.  Returns the plan and the core count it was computed for;
/// with more processes than cores several processes share a core, which
/// the caller reports as a warning.
pub fn set_workers_affinity(workers: &Vec<WorkerSession>, main_pid: i32) -> (r: (
    Vec<CpuPinning>,
    usize,
))
    ensures
        r.1 >= 1,
        r.0@.len() == workers@.len() + 1,
        r.0@[0] == (CpuPinning { pid: main_pid, cpu: 0 }),
        forall|i: int|
            0 <= i < workers@.len() ==> r.0@[i + 1] == (CpuPinning {
                pid: (#[trigger] workers@[i]).pid,
                cpu: ((i + 1) % (r.1 as int)) as usize,
            }),
{
    let max_cpu = logical_cpu_count();
    let plan = cpu_assignments(workers, main_pid, max_cpu);
    (plan, max_cpu)
}

/// With more processes than cores, some core carries several processes.
pub fn affinity_needs_warning(workers: &Vec<WorkerSession>, max_cpu: usize) -> (r: bool)
    requires
        workers@.len() < usize::MAX,
    ensures
        r <==> workers@.len() + 1 > max_cpu,
{
    workers.len() + 1 > max_cpu
}

} // verus!
