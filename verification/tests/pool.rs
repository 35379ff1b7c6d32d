use sozu::pool::{
    backoff_delay, BroadcastAggregator, RestartDecision, RestartPolicy, WorkerPool,
};
use sozu::response::ProxyResponseStatus;
use sozu::server::CommandServer;
use sozu::types::RunState;

#[test]
fn spawn_gives_fresh_ids() {
    let mut pool = WorkerPool::new();
    let a = pool.spawn(100);
    let b = pool.spawn(101);
    assert_eq!(a, 0);
    assert_eq!(b, 1);
    assert_ne!(pool.sessions[0].id, pool.sessions[1].id);
}

#[test]
fn crash_recovery_reuses_id_only_after_stopped() {
    // two workers running; one is killed externally
    let mut pool = WorkerPool::new();
    pool.spawn(100);
    pool.spawn(101);
    let at = pool.position_of_pid(101).unwrap();
    // the exit is reaped: the session reaches Stopped
    pool.set_run_state(at, RunState::Stopped);
    assert_eq!(pool.sessions[at].run_state, RunState::Stopped);
    let old_id = pool.sessions[at].id;
    // the worker is respawned under the same id, with a new pid
    pool.respawn(at, 102);
    assert_eq!(pool.sessions[at].id, old_id);
    assert_eq!(pool.sessions[at].pid, 102);
    assert_eq!(pool.sessions[at].run_state, RunState::Running);
    // ids are still unique
    assert_ne!(pool.sessions[0].id, pool.sessions[1].id);
}

#[test]
fn aggregation_counts_every_running_worker() {
    let mut pool = WorkerPool::new();
    pool.spawn(100);
    pool.spawn(101);
    pool.spawn(102);
    // one worker is stopping: it is not a dispatch target
    pool.set_run_state(2, RunState::Stopping);
    let targets = pool.running_ids();
    assert_eq!(targets, vec![0, 1]);

    let mut agg = BroadcastAggregator::new(targets);
    assert!(!agg.is_complete());
    assert!(agg.record(0, ProxyResponseStatus::Processing) == false);
    assert!(agg.record(0, ProxyResponseStatus::Okay));
    // a duplicate terminal answer of the same worker is discarded
    assert!(!agg.record(0, ProxyResponseStatus::Okay));
    // an unexpected worker is discarded
    assert!(!agg.record(7, ProxyResponseStatus::Okay));
    assert!(!agg.is_complete());
    // the other worker disconnects: a synthetic error closes its slot
    assert!(agg.worker_disconnected(1));
    assert!(agg.is_complete());

    let outcomes = agg.finalize();
    // as many terminal responses as running workers at dispatch time
    assert_eq!(outcomes.len(), 2);
    assert_eq!(outcomes[0].0, 0);
    assert_eq!(outcomes[0].1, ProxyResponseStatus::Okay);
    assert_eq!(outcomes[1].0, 1);
    assert_eq!(
        outcomes[1].1,
        ProxyResponseStatus::Error(String::from("worker disconnected"))
    );
}

#[test]
fn aggregation_fills_missing_answers_on_deadline() {
    let agg = BroadcastAggregator::new(vec![3, 4, 5]);
    // the deadline expires before anyone answers
    let outcomes = agg.finalize();
    assert_eq!(outcomes.len(), 3);
    for (i, id) in [3u32, 4, 5].iter().enumerate() {
        assert_eq!(outcomes[i].0, *id);
        assert_eq!(
            outcomes[i].1,
            ProxyResponseStatus::Error(String::from("worker disconnected"))
        );
    }
}

#[test]
fn broadcast_partial_failure_is_reported_per_worker() {
    let mut agg = BroadcastAggregator::new(vec![0, 1]);
    assert!(agg.record(0, ProxyResponseStatus::Okay));
    assert!(agg.record(1, ProxyResponseStatus::Error(String::from("boom"))));
    let outcomes = agg.finalize();
    assert_eq!(outcomes.len(), 2);
    assert_eq!(outcomes[0].1, ProxyResponseStatus::Okay);
    assert_eq!(outcomes[1].1, ProxyResponseStatus::Error(String::from("boom")));

    let response = CommandServer::mutation_response(String::from("req-7"), &outcomes);
    assert_eq!(response.id, String::from("req-7"));
    assert_eq!(response.status, sozu::types::ResponseStatus::Failure);
    // the message enumerates the failing worker id
    assert!(response.message.contains("worker 1 failed"));
}

#[test]
fn backoff_delays_double_and_cap() {
    assert_eq!(backoff_delay(1), 1000);
    assert_eq!(backoff_delay(2), 2000);
    assert_eq!(backoff_delay(3), 4000);
    assert_eq!(backoff_delay(5), 16000);
    assert_eq!(backoff_delay(6), 30000);
    assert_eq!(backoff_delay(40), 30000);
}

#[test]
fn six_crashes_pause_after_five_respawns() {
    let mut policy = RestartPolicy::new();
    let mut respawns = 0;
    let mut decisions = Vec::new();
    for k in 0..6u64 {
        let d = policy.on_crash(10_000 + k * 1_000);
        if let RestartDecision::Respawn(_) = d {
            respawns += 1;
        }
        decisions.push(d);
    }
    // exactly five automatic respawns; the sixth crash pauses
    assert_eq!(respawns, 5);
    assert_eq!(decisions[0], RestartDecision::Respawn(1000));
    assert_eq!(decisions[1], RestartDecision::Respawn(2000));
    assert_eq!(decisions[4], RestartDecision::Respawn(16000));
    assert_eq!(decisions[5], RestartDecision::Pause);
    // while paused, further crashes do not respawn
    assert_eq!(policy.on_crash(17_000), RestartDecision::Pause);
    // an explicit relaunch resumes spawning
    policy.resume();
    assert_eq!(policy.on_crash(18_000), RestartDecision::Respawn(1000));
}

#[test]
fn crashes_outside_the_window_reset_the_budget() {
    let mut policy = RestartPolicy::new();
    assert_eq!(policy.on_crash(0), RestartDecision::Respawn(1000));
    assert_eq!(policy.on_crash(1_000), RestartDecision::Respawn(2000));
    // a quiet minute later, the window restarts
    assert_eq!(policy.on_crash(70_000), RestartDecision::Respawn(1000));
}
