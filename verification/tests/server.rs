use sozu::affinity::{affinity_needs_warning, cpu_assignments, set_workers_affinity, CpuPinning};
use sozu::net::SocketAddress;
use sozu::pool::WorkerSession;
use sozu::response::{ProxyResponse, ProxyResponseStatus, Response};
use sozu::server::CommandServer;
use sozu::state::ConfigCommand;
use sozu::types::{
    HttpFrontend, HttpListenerConfig, PathRule, ResponseStatus, Route, RulePosition, RunState,
};
use sozu::upgrade::{UpgradeAction, UpgradeEvent, UpgradePhase, Upgrader};

fn addr(d: u8, port: u16) -> SocketAddress {
    SocketAddress::new_v4(127, 0, 0, d, port)
}

#[test]
fn mutation_updates_state_before_any_worker_answers() {
    let mut server = CommandServer::new();
    server.pool.spawn(100);
    server.pool.spawn(101);

    let a = addr(1, 8080);
    let mut listener = HttpListenerConfig::default();
    listener.address = a;
    let (outcome, mut agg) =
        server.fan_out_mutation(&ConfigCommand::AddHttpListener(listener));
    assert_eq!(outcome, Ok(true));

    // before any worker acknowledged, a read on the same connection
    // already sees the post-mutation state
    assert!(server.state.listeners.contains(&a));
    let listeners = server.list_listeners();
    assert_eq!(listeners.http_listeners.len(), 1);

    // the workers acknowledge afterwards; their answers only shape the
    // aggregated response, never the state
    assert!(agg.record(0, ProxyResponseStatus::Okay));
    assert!(agg.record(1, ProxyResponseStatus::Okay));
    assert!(agg.is_complete());
    let response = CommandServer::mutation_response(String::from("id-1"), &agg.finalize());
    assert_eq!(response.status, ResponseStatus::Okay);
}

#[test]
fn list_frontends_returns_the_single_frontend() {
    let mut server = CommandServer::new();
    let a = addr(1, 8080);
    let frontend = HttpFrontend {
        route: Route::ClusterId(String::from("c1")),
        address: a,
        hostname: String::from("a.test"),
        path: PathRule::Prefix(String::from("/")),
        method: None,
        position: RulePosition::Tree,
        tags: None,
    };
    let (outcome, _) = server.fan_out_mutation(&ConfigCommand::AddHttpFrontend(frontend));
    assert_eq!(outcome, Ok(true));
    let listed = server.list_frontends();
    assert_eq!(listed.http_frontends.len(), 1);
    assert_eq!(listed.http_frontends[0].hostname, String::from("a.test"));
    assert!(listed.https_frontends.is_empty());
    assert!(listed.tcp_frontends.is_empty());
}

#[test]
fn status_lists_every_session() {
    let mut server = CommandServer::new();
    server.pool.spawn(100);
    server.pool.spawn(101);
    server.pool.set_run_state(1, RunState::Stopping);
    let infos = server.status();
    assert_eq!(infos.len(), 2);
    assert_eq!(infos[0].id, 0);
    assert_eq!(infos[0].run_state, RunState::Running);
    assert_eq!(infos[1].id, 1);
    assert_eq!(infos[1].run_state, RunState::Stopping);
}

#[test]
fn responses_carry_version_and_placeholder_id() {
    let r = Response::new(ResponseStatus::Okay, String::from("done"), None);
    assert_eq!(r.version, sozu::types::PROTOCOL_VERSION);
    assert_eq!(r.id, String::from("generic-response-id-to-be-removed"));
    let r2 = Response::answering(
        String::from("req-1"),
        ResponseStatus::Processing,
        String::new(),
        None,
    );
    assert_eq!(r2.id, String::from("req-1"));
}

#[test]
fn proxy_response_constructors() {
    let ok = ProxyResponse::ok(String::from("a"));
    assert_eq!(ok.status, ProxyResponseStatus::Okay);
    assert!(ok.content.is_none());
    let err = ProxyResponse::error(String::from("a"), String::from("boom"));
    assert_eq!(err.status, ProxyResponseStatus::Error(String::from("boom")));
    let processing = ProxyResponse::processing(String::from("a"));
    assert_eq!(processing.status, ProxyResponseStatus::Processing);
    let st = ProxyResponse::status(String::from("a"), ProxyResponseStatus::Okay);
    assert_eq!(st.id, String::from("a"));
}

#[test]
fn live_upgrade_walks_to_completion() {
    let mut upgrader = Upgrader::new();
    assert_eq!(upgrader.phase, UpgradePhase::Idle);
    assert_eq!(upgrader.start(), UpgradeAction::ForkSuccessor);
    assert_eq!(
        upgrader.step(UpgradeEvent::ForkSucceeded),
        UpgradeAction::SendStateAndListeners
    );
    assert_eq!(
        upgrader.step(UpgradeEvent::StateSent),
        UpgradeAction::ReparentWorkers
    );
    // the old supervisor exits only once every handover is confirmed
    assert_eq!(
        upgrader.step(UpgradeEvent::HandoversConfirmed),
        UpgradeAction::ExitOldMain
    );
    assert_eq!(upgrader.phase, UpgradePhase::WorkersHandedOver);
}

#[test]
fn failed_upgrade_stays_on_the_old_supervisor() {
    let mut upgrader = Upgrader::new();
    upgrader.start();
    assert_eq!(
        upgrader.step(UpgradeEvent::TransferFailed),
        UpgradeAction::StayOnOldMain
    );
    assert_eq!(upgrader.phase, UpgradePhase::Aborted);
}

#[test]
fn affinity_wraps_round_robin() {
    let workers = vec![
        WorkerSession { id: 0, pid: 201, run_state: RunState::Running },
        WorkerSession { id: 1, pid: 202, run_state: RunState::Running },
        WorkerSession { id: 2, pid: 203, run_state: RunState::Running },
    ];
    let plan = cpu_assignments(&workers, 200, 2);
    assert_eq!(
        plan,
        vec![
            CpuPinning { pid: 200, cpu: 0 },
            CpuPinning { pid: 201, cpu: 1 },
            CpuPinning { pid: 202, cpu: 0 },
            CpuPinning { pid: 203, cpu: 1 },
        ]
    );
    assert!(affinity_needs_warning(&workers, 2));
    assert!(!affinity_needs_warning(&workers, 4));

    // against the machine's own core count
    let (machine_plan, cpus) = set_workers_affinity(&workers, 200);
    assert!(cpus >= 1);
    assert_eq!(machine_plan.len(), 4);
    assert_eq!(machine_plan[0], CpuPinning { pid: 200, cpu: 0 });
}
