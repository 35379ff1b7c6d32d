//! The command server model: the supervisor's authoritative state and its
//! worker pool, the routing of client requests, and the rule that a
//! mutation updates the authoritative state before any worker response is
//! awaited.

use vstd::prelude::*;

use crate::pool::{spec_running_ids, BroadcastAggregator, WorkerPool};
use crate::response::{ListedFrontends, ListenersList, Response, ResponseStatus};
use crate::state::{
    spec_apply, spec_apply_all, spec_empty_state, ConfigCommand, ConfigState, ListenerConfig,
    ListenerConfigView, ListenerEntryView, StateError,
};
use crate::types::{HttpFrontend, TcpFrontend, WorkerInfo};

verus! {

/// The supervisor's command server: it owns the authoritative state and
/// the pool, takes requests from clients and answers them.  The socket
/// I/O lives outside the library.
pub struct CommandServer {
    pub state: ConfigState,
    pub pool: WorkerPool,
}

impl CommandServer {
    pub open spec fn wf(&self) -> bool {
        self.state.wf() && self.pool.wf()
    }

    /// A fresh supervisor: empty state, no workers.
    pub fn new() -> (r: CommandServer)
        ensures
            r.wf(),
            r.pool.sessions@.len() == 0,
    {
        CommandServer { state: ConfigState::new(), pool: WorkerPool::new() }
    }

    /// Routes a mutation: the authoritative state is updated first, and
    /// only then is the broadcast to the workers prepared.  The returned
    /// aggregator expects one terminal response per running worker; any
    /// read served after this call already sees the mutated state, whether
    /// or not any worker has answered yet.
    pub fn fan_out_mutation(&mut self, cmd: &ConfigCommand) -> (r: (
        Result<bool, StateError>,
        BroadcastAggregator,
    ))
        requires
            old(self).wf(),
        ensures
            final(self).wf(),
            final(self).state@ == spec_apply(old(self).state@, cmd.deep_view()).0,
            r.0 == spec_apply(old(self).state@, cmd.deep_view()).1,
            final(self).pool == old(self).pool,
            r.1.wf(),
            r.1.expected@ == spec_running_ids(old(self).pool.sessions@),
            r.1.terminal@.len() == 0,
    {
        let outcome = self.state.apply(cmd);
        let targets = self.pool.running_ids();
        proof {
            crate::pool::lemma_running_ids(self.pool.sessions@);
        }
        let aggregator = BroadcastAggregator::new(targets);
        (outcome, aggregator)
    }

    /// The commands that carry a blank worker to the full authoritative
    /// state: what a freshly spawned or drifted worker is sent on
    /// reconciliation.  Applied to an empty state, they rebuild exactly
    /// the supervisor's own state.
    pub fn reconcile_commands(&self) -> (r: Vec<ConfigCommand>)
        requires
            self.wf(),
        ensures
            spec_apply_all(spec_empty_state(), r.deep_view()) == self.state@,
    {
        let empty = ConfigState::new();
        empty.diff(&self.state)
    }

    /// Serves `ListFrontends` from the authoritative state: every HTTP,
    /// HTTPS and TCP frontend, in insertion order.
    pub fn list_frontends(&self) -> (r: ListedFrontends)
        requires
            self.wf(),
        ensures
            r.http_frontends.deep_view().len() == self.state.http_frontends.entries@.len(),
            forall|i: int|
                0 <= i < r.http_frontends.deep_view().len() ==> r.http_frontends.deep_view()[i]
                    == self.state.http_frontends.entries.deep_view()[i].1,
            r.https_frontends.deep_view().len() == self.state.https_frontends.entries@.len(),
            forall|i: int|
                0 <= i < r.https_frontends.deep_view().len() ==> r.https_frontends.deep_view()[i]
                    == self.state.https_frontends.entries.deep_view()[i].1,
            r.tcp_frontends.deep_view().len() == self.state.tcp_frontends.entries@.len(),
            forall|i: int|
                0 <= i < r.tcp_frontends.deep_view().len() ==> r.tcp_frontends.deep_view()[i]
                    == self.state.tcp_frontends.entries.deep_view()[i].1,
    {
        let mut http_frontends: Vec<HttpFrontend> = Vec::new();
        let mut i: usize = 0;
        while i < self.state.http_frontends.entries.len()
            invariant
                0 <= i <= self.state.http_frontends.entries@.len(),
                http_frontends@.len() == i,
                forall|j: int|
                    0 <= j < i ==> http_frontends.deep_view()[j]
                        == self.state.http_frontends.entries.deep_view()[j].1,
            decreases self.state.http_frontends.entries@.len() - i,
        {
            let ghost pre = http_frontends.deep_view();
            http_frontends.push(self.state.http_frontends.entries[i].1.duplicate());
            proof {
                assert forall|j: int| 0 <= j < i + 1 implies http_frontends.deep_view()[j]
                    == self.state.http_frontends.entries.deep_view()[j].1 by {
                    if j < i {
                        assert(http_frontends.deep_view()[j] == pre[j]);
                    } else {
                        assert(http_frontends.deep_view()[j]
                            == self.state.http_frontends.entries@[j].1.deep_view());
                        assert(self.state.http_frontends.entries.deep_view()[j]
                            == self.state.http_frontends.entries@[j].deep_view());
                    }
                }
            }
            i += 1;
        }
        let mut https_frontends: Vec<HttpFrontend> = Vec::new();
        let mut i: usize = 0;
        while i < self.state.https_frontends.entries.len()
            invariant
                0 <= i <= self.state.https_frontends.entries@.len(),
                https_frontends@.len() == i,
                forall|j: int|
                    0 <= j < i ==> https_frontends.deep_view()[j]
                        == self.state.https_frontends.entries.deep_view()[j].1,
            decreases self.state.https_frontends.entries@.len() - i,
        {
            let ghost pre = https_frontends.deep_view();
            https_frontends.push(self.state.https_frontends.entries[i].1.duplicate());
            proof {
                assert forall|j: int| 0 <= j < i + 1 implies https_frontends.deep_view()[j]
                    == self.state.https_frontends.entries.deep_view()[j].1 by {
                    if j < i {
                        assert(https_frontends.deep_view()[j] == pre[j]);
                    } else {
                        assert(https_frontends.deep_view()[j]
                            == self.state.https_frontends.entries@[j].1.deep_view());
                        assert(self.state.https_frontends.entries.deep_view()[j]
                            == self.state.https_frontends.entries@[j].deep_view());
                    }
                }
            }
            i += 1;
        }
        let mut tcp_frontends: Vec<TcpFrontend> = Vec::new();
        let mut i: usize = 0;
        while i < self.state.tcp_frontends.entries.len()
            invariant
                0 <= i <= self.state.tcp_frontends.entries@.len(),
                tcp_frontends@.len() == i,
                forall|j: int|
                    0 <= j < i ==> tcp_frontends.deep_view()[j]
                        == self.state.tcp_frontends.entries.deep_view()[j].1,
            decreases self.state.tcp_frontends.entries@.len() - i,
        {
            let ghost pre = tcp_frontends.deep_view();
            tcp_frontends.push(self.state.tcp_frontends.entries[i].1.duplicate());
            proof {
                assert forall|j: int| 0 <= j < i + 1 implies tcp_frontends.deep_view()[j]
                    == self.state.tcp_frontends.entries.deep_view()[j].1 by {
                    if j < i {
                        assert(tcp_frontends.deep_view()[j] == pre[j]);
                    } else {
                        assert(tcp_frontends.deep_view()[j]
                            == self.state.tcp_frontends.entries@[j].1.deep_view());
                        assert(self.state.tcp_frontends.entries.deep_view()[j]
                            == self.state.tcp_frontends.entries@[j].deep_view());
                    }
                }
            }
            i += 1;
        }
        ListedFrontends { http_frontends, https_frontends, tcp_frontends }
    }

    /// Serves `ListListeners` from the authoritative state: every
    /// listener, split by kind, each with its address, its configuration
    /// and whether it is active, in insertion order.
    pub fn list_listeners(&self) -> (r: ListenersList)
        requires
            self.wf(),
        ensures
            r.http_listeners.deep_view() == spec_http_listeners(
                self.state.listeners.entries.deep_view(),
            ),
            r.https_listeners.deep_view() == spec_https_listeners(
                self.state.listeners.entries.deep_view(),
            ),
            r.tcp_listeners.deep_view() == spec_tcp_listeners(
                self.state.listeners.entries.deep_view(),
            ),
    {
        let mut http_listeners: Vec<(crate::net::SocketAddress, crate::types::HttpListenerConfig, bool)> =
            Vec::new();
        let mut https_listeners: Vec<(crate::net::SocketAddress, crate::types::HttpsListenerConfig, bool)> =
            Vec::new();
        let mut tcp_listeners: Vec<(crate::net::SocketAddress, crate::types::TcpListenerConfig, bool)> =
            Vec::new();
        let ghost ents = self.state.listeners.entries.deep_view();
        proof {
            assert(ents.take(0) =~= Seq::<(crate::net::SocketAddress, ListenerEntryView)>::empty());
            assert(http_listeners.deep_view() =~= spec_http_listeners(ents.take(0)));
            assert(https_listeners.deep_view() =~= spec_https_listeners(ents.take(0)));
            assert(tcp_listeners.deep_view() =~= spec_tcp_listeners(ents.take(0)));
        }
        let mut i: usize = 0;
        while i < self.state.listeners.entries.len()
            invariant
                0 <= i <= self.state.listeners.entries@.len(),
                ents == self.state.listeners.entries.deep_view(),
                http_listeners.deep_view() == spec_http_listeners(ents.take(i as int)),
                https_listeners.deep_view() == spec_https_listeners(ents.take(i as int)),
                tcp_listeners.deep_view() == spec_tcp_listeners(ents.take(i as int)),
            decreases self.state.listeners.entries@.len() - i,
        {
            let address = self.state.listeners.entries[i].0;
            let active = self.state.listeners.entries[i].1.active;
            let ghost pre_http = http_listeners.deep_view();
            let ghost pre_https = https_listeners.deep_view();
            let ghost pre_tcp = tcp_listeners.deep_view();
            match &self.state.listeners.entries[i].1.config {
                ListenerConfig::Http(c) => http_listeners.push((address, c.duplicate(), active)),
                ListenerConfig::Https(c) => https_listeners.push((address, c.duplicate(), active)),
                ListenerConfig::Tcp(c) => tcp_listeners.push((address, c.clone(), active)),
            }
            proof {
                assert(ents.take(i + 1).drop_last() =~= ents.take(i as int));
                assert(ents.take(i + 1).last() == ents[i as int]);
                assert(ents[i as int] == self.state.listeners.entries@[i as int].deep_view());
                match self.state.listeners.entries@[i as int].1.config {
                    ListenerConfig::Http(c) => {
                        assert(http_listeners.deep_view() =~= pre_http.push(
                            (address, c.deep_view(), active),
                        ));
                        assert(http_listeners.deep_view() =~= spec_http_listeners(ents.take(i + 1)));
                        assert(https_listeners.deep_view() =~= spec_https_listeners(
                            ents.take(i + 1),
                        ));
                        assert(tcp_listeners.deep_view() =~= spec_tcp_listeners(ents.take(i + 1)));
                    },
                    ListenerConfig::Https(c) => {
                        assert(https_listeners.deep_view() =~= pre_https.push(
                            (address, c.deep_view(), active),
                        ));
                        assert(http_listeners.deep_view() =~= spec_http_listeners(ents.take(i + 1)));
                        assert(https_listeners.deep_view() =~= spec_https_listeners(
                            ents.take(i + 1),
                        ));
                        assert(tcp_listeners.deep_view() =~= spec_tcp_listeners(ents.take(i + 1)));
                    },
                    ListenerConfig::Tcp(c) => {
                        assert(tcp_listeners.deep_view() =~= pre_tcp.push((address, c, active)));
                        assert(http_listeners.deep_view() =~= spec_http_listeners(ents.take(i + 1)));
                        assert(https_listeners.deep_view() =~= spec_https_listeners(
                            ents.take(i + 1),
                        ));
                        assert(tcp_listeners.deep_view() =~= spec_tcp_listeners(ents.take(i + 1)));
                    },
                }
            }
            i += 1;
        }
        proof {
            assert(ents.take(self.state.listeners.entries@.len() as int) =~= ents);
        }
        ListenersList { http_listeners, https_listeners, tcp_listeners }
    }

    /// Serves `Status`: one description per worker session.
    pub fn status(&self) -> (r: Vec<WorkerInfo>)
        ensures
            r@.len() == self.pool.sessions@.len(),
            forall|i: int|
                0 <= i < r@.len() ==> r@[i] == (WorkerInfo {
                    id: (#[trigger] self.pool.sessions@[i]).id,
                    pid: self.pool.sessions@[i].pid,
                    run_state: self.pool.sessions@[i].run_state,
                }),
    {
        self.pool.worker_infos()
    }

    /// Builds the final response of an aggregated mutation: `Okay` when
    /// every worker answered well, `Failure` naming each failing worker
    /// otherwise.
    pub fn mutation_response(
        id: String,
        outcomes: &Vec<(u32, crate::response::ProxyResponseStatus)>,
    ) -> (r: Response)
        ensures
            r.id == id,
            (r.status == ResponseStatus::Okay <==> (forall|i: int|
                0 <= i < outcomes@.len() ==> !((#[trigger] outcomes@[i]).1 is Error))),
            !(r.status == ResponseStatus::Okay) ==> r.status == ResponseStatus::Failure,
            r.message@ == spec_failures_message(outcomes@, outcomes@.len() as int),
            r.content is None,
    {
        let mut failing = false;
        let mut message = String::new();
        let mut i: usize = 0;
        proof {
            assert(message@ =~= spec_failures_message(outcomes@, 0));
        }
        while i < outcomes.len()
            invariant
                0 <= i <= outcomes@.len(),
                failing <==> exists|j: int| 0 <= j < i && (#[trigger] outcomes@[j]).1 is Error,
                message@ == spec_failures_message(outcomes@, i as int),
            decreases outcomes@.len() - i,
        {
            if matches!(&outcomes[i].1, crate::response::ProxyResponseStatus::Error(_)) {
                proof {
                    assert(outcomes@[i as int].1 is Error);
                }
                failing = true;
                message.append("worker ");
                let num = crate::types::u32_to_string(outcomes[i].0);
                message.append(num.as_str());
                message.append(" failed; ");
            }
            proof {
                reveal_strlit("worker ");
                reveal_strlit(" failed; ");
                assert(message@ =~= spec_failures_message(outcomes@, i + 1));
            }
            i += 1;
        }
        if failing {
            Response::answering(id, ResponseStatus::Failure, message, Option::None)
        } else {
            Response::answering(id, ResponseStatus::Okay, message, Option::None)
        }
    }
}

/// The text that names each failing worker of an aggregated mutation, in
/// dispatch order.
pub open spec fn spec_failures_message(
    outcomes: Seq<(u32, crate::response::ProxyResponseStatus)>,
    upto: int,
) -> Seq<char>
    decreases upto,
{
    if upto <= 0 {
        Seq::empty()
    } else {
        let head = spec_failures_message(outcomes, upto - 1);
        if outcomes[upto - 1].1 is Error {
            head + "worker "@ + crate::types::spec_decimal(outcomes[upto - 1].0 as nat)
                + " failed; "@
        } else {
            head
        }
    }
}

} // verus!

verus! {

/// The HTTP listeners among the entries, in order.
pub open spec fn spec_http_listeners(
    ents: Seq<(crate::net::SocketAddress, ListenerEntryView)>,
) -> Seq<(crate::net::SocketAddress, crate::types::HttpListenerConfigView, bool)>
    decreases ents.len(),
{
    if ents.len() == 0 {
        Seq::empty()
    } else {
        spec_http_listeners(ents.drop_last()) + (match ents.last().1.config {
            ListenerConfigView::Http(c) => seq![(ents.last().0, c, ents.last().1.active)],
            _ => Seq::empty(),
        })
    }
}

/// The HTTPS listeners among the entries, in order.
pub open spec fn spec_https_listeners(
    ents: Seq<(crate::net::SocketAddress, ListenerEntryView)>,
) -> Seq<(crate::net::SocketAddress, crate::types::HttpsListenerConfigView, bool)>
    decreases ents.len(),
{
    if ents.len() == 0 {
        Seq::empty()
    } else {
        spec_https_listeners(ents.drop_last()) + (match ents.last().1.config {
            ListenerConfigView::Https(c) => seq![(ents.last().0, c, ents.last().1.active)],
            _ => Seq::empty(),
        })
    }
}

/// The TCP listeners among the entries, in order.
pub open spec fn spec_tcp_listeners(
    ents: Seq<(crate::net::SocketAddress, ListenerEntryView)>,
) -> Seq<(crate::net::SocketAddress, crate::types::TcpListenerConfig, bool)>
    decreases ents.len(),
{
    if ents.len() == 0 {
        Seq::empty()
    } else {
        spec_tcp_listeners(ents.drop_last()) + (match ents.last().1.config {
            ListenerConfigView::Tcp(c) => seq![(ents.last().0, c, ents.last().1.active)],
            _ => Seq::empty(),
        })
    }
}

} // verus!
