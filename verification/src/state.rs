//! The authoritative configuration state of the supervisor: listeners,
//! clusters, frontends, backends and certificates, the mutation commands
//! that act on it, and the diff between two states.
//!
//! Every mutation is idempotent: re-applying a command that already took
//! effect changes nothing and does not fail.  Commands that reference a
//! missing cluster are accepted (forward declarations are allowed).

use vstd::prelude::*;

use crate::net::SocketAddress;
use crate::table::Table;
use crate::types::{
    Backend, BackendKey, BackendKeyView, BackendView, Certificate, CertificateKey,
    CertificateKeyView, CertificateView, Cluster, ClusterView, DeepEq, HttpFrontend,
    HttpFrontendView, HttpListenerConfig, HttpListenerConfigView, HttpsListenerConfig,
    HttpsListenerConfigView, RouteKey, RouteKeyView, TcpFrontend, TcpFrontendView,
    TcpListenerConfig, backend_key_of, route_key_of,
};

verus! {

/// The protocol a listener terminates.
#[derive(Debug, Clone, Copy, PartialEq, Eq, Structural, Hash)]
pub enum ListenerKind {
    Http,
    Https,
    Tcp,
}

/// A listener's configuration, by kind.
#[derive(Debug, Clone, PartialEq, Eq, Hash)]
pub enum ListenerConfig {
    Http(HttpListenerConfig),
    Https(HttpsListenerConfig),
    Tcp(TcpListenerConfig),
}

pub ghost enum ListenerConfigView {
    Http(HttpListenerConfigView),
    Https(HttpsListenerConfigView),
    Tcp(TcpListenerConfig),
}

impl DeepView for ListenerConfig {
    type V = ListenerConfigView;

    open spec fn deep_view(&self) -> ListenerConfigView {
        match self {
            ListenerConfig::Http(c) => ListenerConfigView::Http(c.deep_view()),
            ListenerConfig::Https(c) => ListenerConfigView::Https(c.deep_view()),
            ListenerConfig::Tcp(c) => ListenerConfigView::Tcp(*c),
        }
    }
}

impl DeepEq for ListenerConfig {
    fn deep_eq(&self, other: &Self) -> (r: bool) {
        match (self, other) {
            (ListenerConfig::Http(a), ListenerConfig::Http(b)) => a.deep_eq(b),
            (ListenerConfig::Https(a), ListenerConfig::Https(b)) => a.deep_eq(b),
            (ListenerConfig::Tcp(a), ListenerConfig::Tcp(b)) => a.deep_eq(b),
            _ => false,
        }
    }
}

impl ListenerConfig {
    /// The address this configuration binds.
    pub fn address(&self) -> (r: SocketAddress)
        ensures
            r == spec_listener_address(self.deep_view()),
    {
        match self {
            ListenerConfig::Http(c) => c.address,
            ListenerConfig::Https(c) => c.address,
            ListenerConfig::Tcp(c) => c.address,
        }
    }

    /// The kind of listener this configuration describes.
    pub fn kind(&self) -> (r: ListenerKind)
        ensures
            r == spec_listener_kind(self.deep_view()),
    {
        match self {
            ListenerConfig::Http(_) => ListenerKind::Http,
            ListenerConfig::Https(_) => ListenerKind::Https,
            ListenerConfig::Tcp(_) => ListenerKind::Tcp,
        }
    }

    /// Clones the configuration, keeping the deep view.
    pub fn duplicate(&self) -> (r: ListenerConfig)
        ensures
            r.deep_view() == self.deep_view(),
    {
        match self {
            ListenerConfig::Http(c) => ListenerConfig::Http(c.duplicate()),
            ListenerConfig::Https(c) => ListenerConfig::Https(c.duplicate()),
            ListenerConfig::Tcp(c) => ListenerConfig::Tcp(c.clone()),
        }
    }
}

pub open spec fn spec_listener_address(c: ListenerConfigView) -> SocketAddress {
    match c {
        ListenerConfigView::Http(c) => c.address,
        ListenerConfigView::Https(c) => c.address,
        ListenerConfigView::Tcp(c) => c.address,
    }
}

pub open spec fn spec_listener_kind(c: ListenerConfigView) -> ListenerKind {
    match c {
        ListenerConfigView::Http(_) => ListenerKind::Http,
        ListenerConfigView::Https(_) => ListenerKind::Https,
        ListenerConfigView::Tcp(_) => ListenerKind::Tcp,
    }
}

/// A listener as stored: its configuration and whether its socket is bound.
#[derive(Debug, Clone, PartialEq, Eq, Hash)]
pub struct ListenerEntry {
    pub config: ListenerConfig,
    pub active: bool,
}

pub ghost struct ListenerEntryView {
    pub config: ListenerConfigView,
    pub active: bool,
}

impl DeepView for ListenerEntry {
    type V = ListenerEntryView;

    open spec fn deep_view(&self) -> ListenerEntryView {
        ListenerEntryView { config: self.config.deep_view(), active: self.active }
    }
}

impl DeepEq for ListenerEntry {
    fn deep_eq(&self, other: &Self) -> (r: bool) {
        self.config.deep_eq(&other.config) && self.active == other.active
    }
}

impl ListenerEntry {
    /// Clones the entry, keeping the deep view.
    pub fn duplicate(&self) -> (r: ListenerEntry)
        ensures
            r.deep_view() == self.deep_view(),
    {
        ListenerEntry { config: self.config.duplicate(), active: self.active }
    }
}

/// Why a mutation was refused.
#[derive(Debug, Clone, Copy, PartialEq, Eq, Structural, Hash)]
pub enum StateError {
    /// another listener already binds this address
    ListenerAlreadyExists,
    /// no listener binds this address
    ListenerNotFound,
    /// a listener must be deactivated before it is removed
    ListenerStillActive,
}

/// A mutation of the configuration state.
#[derive(Debug, Clone, PartialEq, Eq, Hash)]
pub enum ConfigCommand {
    AddHttpListener(HttpListenerConfig),
    AddHttpsListener(HttpsListenerConfig),
    AddTcpListener(TcpListenerConfig),
    RemoveListener { address: SocketAddress },
    ActivateListener { address: SocketAddress },
    DeactivateListener { address: SocketAddress },
    AddCluster(Cluster),
    RemoveCluster { cluster_id: String },
    AddHttpFrontend(HttpFrontend),
    RemoveHttpFrontend(HttpFrontend),
    AddHttpsFrontend(HttpFrontend),
    RemoveHttpsFrontend(HttpFrontend),
    AddTcpFrontend(TcpFrontend),
    RemoveTcpFrontend(TcpFrontend),
    AddBackend(Backend),
    RemoveBackend { key: BackendKey },
    AddCertificate { key: CertificateKey, certificate: Certificate },
    RemoveCertificate { key: CertificateKey },
}

pub ghost enum ConfigCommandView {
    AddHttpListener(HttpListenerConfigView),
    AddHttpsListener(HttpsListenerConfigView),
    AddTcpListener(TcpListenerConfig),
    RemoveListener { address: SocketAddress },
    ActivateListener { address: SocketAddress },
    DeactivateListener { address: SocketAddress },
    AddCluster(ClusterView),
    RemoveCluster { cluster_id: Seq<char> },
    AddHttpFrontend(HttpFrontendView),
    RemoveHttpFrontend(HttpFrontendView),
    AddHttpsFrontend(HttpFrontendView),
    RemoveHttpsFrontend(HttpFrontendView),
    AddTcpFrontend(TcpFrontendView),
    RemoveTcpFrontend(TcpFrontendView),
    AddBackend(BackendView),
    RemoveBackend { key: BackendKeyView },
    AddCertificate { key: CertificateKeyView, certificate: CertificateView },
    RemoveCertificate { key: CertificateKeyView },
}

impl DeepView for ConfigCommand {
    type V = ConfigCommandView;

    open spec fn deep_view(&self) -> ConfigCommandView {
        match self {
            ConfigCommand::AddHttpListener(c) => ConfigCommandView::AddHttpListener(c.deep_view()),
            ConfigCommand::AddHttpsListener(c) => ConfigCommandView::AddHttpsListener(
                c.deep_view(),
            ),
            ConfigCommand::AddTcpListener(c) => ConfigCommandView::AddTcpListener(*c),
            ConfigCommand::RemoveListener { address } => ConfigCommandView::RemoveListener {
                address: *address,
            },
            ConfigCommand::ActivateListener { address } => ConfigCommandView::ActivateListener {
                address: *address,
            },
            ConfigCommand::DeactivateListener { address } => ConfigCommandView::DeactivateListener {
                address: *address,
            },
            ConfigCommand::AddCluster(c) => ConfigCommandView::AddCluster(c.deep_view()),
            ConfigCommand::RemoveCluster { cluster_id } => ConfigCommandView::RemoveCluster {
                cluster_id: cluster_id@,
            },
            ConfigCommand::AddHttpFrontend(f) => ConfigCommandView::AddHttpFrontend(f.deep_view()),
            ConfigCommand::RemoveHttpFrontend(f) => ConfigCommandView::RemoveHttpFrontend(
                f.deep_view(),
            ),
            ConfigCommand::AddHttpsFrontend(f) => ConfigCommandView::AddHttpsFrontend(
                f.deep_view(),
            ),
            ConfigCommand::RemoveHttpsFrontend(f) => ConfigCommandView::RemoveHttpsFrontend(
                f.deep_view(),
            ),
            ConfigCommand::AddTcpFrontend(f) => ConfigCommandView::AddTcpFrontend(f.deep_view()),
            ConfigCommand::RemoveTcpFrontend(f) => ConfigCommandView::RemoveTcpFrontend(
                f.deep_view(),
            ),
            ConfigCommand::AddBackend(b) => ConfigCommandView::AddBackend(b.deep_view()),
            ConfigCommand::RemoveBackend { key } => ConfigCommandView::RemoveBackend {
                key: key.deep_view(),
            },
            ConfigCommand::AddCertificate { key, certificate } => ConfigCommandView::AddCertificate {
                key: key.deep_view(),
                certificate: certificate.deep_view(),
            },
            ConfigCommand::RemoveCertificate { key } => ConfigCommandView::RemoveCertificate {
                key: key.deep_view(),
            },
        }
    }
}

/// The authoritative in-memory state: what listeners are bound, what
/// clusters exist, how traffic is routed and where it is sent.
#[derive(Debug, Clone, PartialEq, Eq)]
pub struct ConfigState {
    pub listeners: Table<SocketAddress, ListenerEntry>,
    pub clusters: Table<String, Cluster>,
    pub http_frontends: Table<RouteKey, HttpFrontend>,
    pub https_frontends: Table<RouteKey, HttpFrontend>,
    pub tcp_frontends: Table<SocketAddress, TcpFrontend>,
    pub backends: Table<BackendKey, Backend>,
    pub certificates: Table<CertificateKey, Certificate>,
}

pub ghost struct ConfigStateView {
    pub listeners: Map<SocketAddress, ListenerEntryView>,
    pub clusters: Map<Seq<char>, ClusterView>,
    pub http_frontends: Map<RouteKeyView, HttpFrontendView>,
    pub https_frontends: Map<RouteKeyView, HttpFrontendView>,
    pub tcp_frontends: Map<SocketAddress, TcpFrontendView>,
    pub backends: Map<BackendKeyView, BackendView>,
    pub certificates: Map<CertificateKeyView, CertificateView>,
}

impl View for ConfigState {
    type V = ConfigStateView;

    open spec fn view(&self) -> ConfigStateView {
        ConfigStateView {
            listeners: self.listeners.view_map(),
            clusters: self.clusters.view_map(),
            http_frontends: self.http_frontends.view_map(),
            https_frontends: self.https_frontends.view_map(),
            tcp_frontends: self.tcp_frontends.view_map(),
            backends: self.backends.view_map(),
            certificates: self.certificates.view_map(),
        }
    }
}

/// What a single mutation does to a state view, and what it answers:
/// `Ok(true)` when the state changed, `Ok(false)` when the command had
/// already taken effect, an error when it is refused.
pub open spec fn spec_apply(s: ConfigStateView, c: ConfigCommandView) -> (ConfigStateView, Result<
    bool,
    StateError,
>) {
    match c {
        ConfigCommandView::AddHttpListener(cfg) => spec_add_listener(
            s,
            cfg.address,
            ListenerConfigView::Http(cfg),
        ),
        ConfigCommandView::AddHttpsListener(cfg) => spec_add_listener(
            s,
            cfg.address,
            ListenerConfigView::Https(cfg),
        ),
        ConfigCommandView::AddTcpListener(cfg) => spec_add_listener(
            s,
            cfg.address,
            ListenerConfigView::Tcp(cfg),
        ),
        ConfigCommandView::RemoveListener { address } => {
            if !s.listeners.contains_key(address) {
                (s, Result::Ok(false))
            } else if s.listeners[address].active {
                (s, Result::Err(StateError::ListenerStillActive))
            } else {
                (
                    ConfigStateView { listeners: s.listeners.remove(address), ..s },
                    Result::Ok(true),
                )
            }
        },
        ConfigCommandView::ActivateListener { address } => {
            if !s.listeners.contains_key(address) {
                (s, Result::Err(StateError::ListenerNotFound))
            } else if s.listeners[address].active {
                (s, Result::Ok(false))
            } else {
                (
                    ConfigStateView {
                        listeners: s.listeners.insert(
                            address,
                            ListenerEntryView { config: s.listeners[address].config, active: true },
                        ),
                        ..s
                    },
                    Result::Ok(true),
                )
            }
        },
        ConfigCommandView::DeactivateListener { address } => {
            if !s.listeners.contains_key(address) {
                (s, Result::Err(StateError::ListenerNotFound))
            } else if !s.listeners[address].active {
                (s, Result::Ok(false))
            } else {
                (
                    ConfigStateView {
                        listeners: s.listeners.insert(
                            address,
                            ListenerEntryView {
                                config: s.listeners[address].config,
                                active: false,
                            },
                        ),
                        ..s
                    },
                    Result::Ok(true),
                )
            }
        },
        ConfigCommandView::AddCluster(c) => {
            if s.clusters.contains_key(c.cluster_id) && s.clusters[c.cluster_id] == c {
                (s, Result::Ok(false))
            } else {
                (
                    ConfigStateView { clusters: s.clusters.insert(c.cluster_id, c), ..s },
                    Result::Ok(true),
                )
            }
        },
        ConfigCommandView::RemoveCluster { cluster_id } => {
            if s.clusters.contains_key(cluster_id) {
                (ConfigStateView { clusters: s.clusters.remove(cluster_id), ..s }, Result::Ok(true))
            } else {
                (s, Result::Ok(false))
            }
        },
        ConfigCommandView::AddHttpFrontend(f) => {
            let k = route_key_of(f);
            if s.http_frontends.contains_key(k) && s.http_frontends[k] == f {
                (s, Result::Ok(false))
            } else {
                (
                    ConfigStateView { http_frontends: s.http_frontends.insert(k, f), ..s },
                    Result::Ok(true),
                )
            }
        },
        ConfigCommandView::RemoveHttpFrontend(f) => {
            let k = route_key_of(f);
            if s.http_frontends.contains_key(k) {
                (
                    ConfigStateView { http_frontends: s.http_frontends.remove(k), ..s },
                    Result::Ok(true),
                )
            } else {
                (s, Result::Ok(false))
            }
        },
        ConfigCommandView::AddHttpsFrontend(f) => {
            let k = route_key_of(f);
            if s.https_frontends.contains_key(k) && s.https_frontends[k] == f {
                (s, Result::Ok(false))
            } else {
                (
                    ConfigStateView { https_frontends: s.https_frontends.insert(k, f), ..s },
                    Result::Ok(true),
                )
            }
        },
        ConfigCommandView::RemoveHttpsFrontend(f) => {
            let k = route_key_of(f);
            if s.https_frontends.contains_key(k) {
                (
                    ConfigStateView { https_frontends: s.https_frontends.remove(k), ..s },
                    Result::Ok(true),
                )
            } else {
                (s, Result::Ok(false))
            }
        },
        ConfigCommandView::AddTcpFrontend(f) => {
            if s.tcp_frontends.contains_key(f.address) && s.tcp_frontends[f.address] == f {
                (s, Result::Ok(false))
            } else {
                (
                    ConfigStateView { tcp_frontends: s.tcp_frontends.insert(f.address, f), ..s },
                    Result::Ok(true),
                )
            }
        },
        ConfigCommandView::RemoveTcpFrontend(f) => {
            if s.tcp_frontends.contains_key(f.address) {
                (
                    ConfigStateView { tcp_frontends: s.tcp_frontends.remove(f.address), ..s },
                    Result::Ok(true),
                )
            } else {
                (s, Result::Ok(false))
            }
        },
        ConfigCommandView::AddBackend(b) => {
            let k = backend_key_of(b);
            if s.backends.contains_key(k) && s.backends[k] == b {
                (s, Result::Ok(false))
            } else {
                (ConfigStateView { backends: s.backends.insert(k, b), ..s }, Result::Ok(true))
            }
        },
        ConfigCommandView::RemoveBackend { key } => {
            if s.backends.contains_key(key) {
                (ConfigStateView { backends: s.backends.remove(key), ..s }, Result::Ok(true))
            } else {
                (s, Result::Ok(false))
            }
        },
        ConfigCommandView::AddCertificate { key, certificate } => {
            if s.certificates.contains_key(key) && s.certificates[key] == certificate {
                (s, Result::Ok(false))
            } else {
                (
                    ConfigStateView { certificates: s.certificates.insert(key, certificate), ..s },
                    Result::Ok(true),
                )
            }
        },
        ConfigCommandView::RemoveCertificate { key } => {
            if s.certificates.contains_key(key) {
                (
                    ConfigStateView { certificates: s.certificates.remove(key), ..s },
                    Result::Ok(true),
                )
            } else {
                (s, Result::Ok(false))
            }
        },
    }
}

/// Adding a listener: a no-op when the same configuration already stands at
/// the address, refused when a different one does, an inactive insertion
/// otherwise.
pub open spec fn spec_add_listener(
    s: ConfigStateView,
    address: SocketAddress,
    cfg: ListenerConfigView,
) -> (ConfigStateView, Result<bool, StateError>) {
    if s.listeners.contains_key(address) {
        if s.listeners[address].config == cfg {
            (s, Result::Ok(false))
        } else {
            (s, Result::Err(StateError::ListenerAlreadyExists))
        }
    } else {
        (
            ConfigStateView {
                listeners: s.listeners.insert(
                    address,
                    ListenerEntryView { config: cfg, active: false },
                ),
                ..s
            },
            Result::Ok(true),
        )
    }
}

} // verus!

verus! {

/// The view of a state with nothing in it.
pub open spec fn spec_empty_state() -> ConfigStateView {
    ConfigStateView {
        listeners: Map::empty(),
        clusters: Map::empty(),
        http_frontends: Map::empty(),
        https_frontends: Map::empty(),
        tcp_frontends: Map::empty(),
        backends: Map::empty(),
        certificates: Map::empty(),
    }
}

/// Every stored value identifies the key it stands under: a listener's
/// configuration binds its address, a cluster record carries its id, a
/// frontend carries its own route key.
pub open spec fn consistent(s: ConfigStateView) -> bool {
    (forall|k: SocketAddress| #[trigger] s.listeners.contains_key(k) ==> spec_listener_address(
        s.listeners[k].config,
    ) == k) && (forall|k: Seq<char>| #[trigger] s.clusters.contains_key(k) ==> s.clusters[k].cluster_id
        == k) && (forall|k: RouteKeyView| #[trigger] s.http_frontends.contains_key(k)
        ==> route_key_of(s.http_frontends[k]) == k) && (forall|k: RouteKeyView| #[trigger] s.https_frontends.contains_key(
        k,
    ) ==> route_key_of(s.https_frontends[k]) == k) && (forall|k: SocketAddress| #[trigger] s.tcp_frontends.contains_key(
        k,
    ) ==> s.tcp_frontends[k].address == k) && (forall|k: BackendKeyView| #[trigger] s.backends.contains_key(
        k,
    ) ==> backend_key_of(s.backends[k]) == k)
}

/// One mutation keeps the state consistent.
pub proof fn lemma_apply_consistent(s: ConfigStateView, c: ConfigCommandView)
    requires
        consistent(s),
    ensures
        consistent(spec_apply(s, c).0),
{
}

impl ConfigState {
    /// Well-formed: every table holds each key at most once, and every
    /// stored value identifies its own key.
    pub open spec fn wf(&self) -> bool {
        self.listeners.wf() && self.clusters.wf() && self.http_frontends.wf()
            && self.https_frontends.wf() && self.tcp_frontends.wf() && self.backends.wf()
            && self.certificates.wf() && consistent(self@)
    }

    /// The empty state: nothing bound, nothing routed.
    pub fn new() -> (r: ConfigState)
        ensures
            r.wf(),
            r@ == spec_empty_state(),
            r@.listeners == Map::<SocketAddress, ListenerEntryView>::empty(),
            r@.clusters == Map::<Seq<char>, ClusterView>::empty(),
            r@.http_frontends == Map::<RouteKeyView, HttpFrontendView>::empty(),
            r@.https_frontends == Map::<RouteKeyView, HttpFrontendView>::empty(),
            r@.tcp_frontends == Map::<SocketAddress, TcpFrontendView>::empty(),
            r@.backends == Map::<BackendKeyView, BackendView>::empty(),
            r@.certificates == Map::<CertificateKeyView, CertificateView>::empty(),
    {
        ConfigState {
            listeners: Table::new(),
            clusters: Table::new(),
            http_frontends: Table::new(),
            https_frontends: Table::new(),
            tcp_frontends: Table::new(),
            backends: Table::new(),
            certificates: Table::new(),
        }
    }

    /// Adds a listener of any kind: a no-op when the identical
    /// configuration already stands at its address, refused when a
    /// different one does, an inactive insertion otherwise.
    fn add_listener(&mut self, config: ListenerConfig) -> (r: Result<bool, StateError>)
        requires
            old(self).wf(),
        ensures
            final(self).wf(),
            final(self)@ == spec_add_listener(
                old(self)@,
                spec_listener_address(config.deep_view()),
                config.deep_view(),
            ).0,
            r == spec_add_listener(
                old(self)@,
                spec_listener_address(config.deep_view()),
                config.deep_view(),
            ).1,
    {
        let address = config.address();
        let verdict: Option<bool> = match self.listeners.get(&address) {
            Option::Some(entry) => Option::Some(entry.config.deep_eq(&config)),
            Option::None => Option::None,
        };
        match verdict {
            Option::Some(true) => Result::Ok(false),
            Option::Some(false) => Result::Err(StateError::ListenerAlreadyExists),
            Option::None => {
                self.listeners.insert(address, ListenerEntry { config, active: false });
                Result::Ok(true)
            },
        }
    }

    /// Applies one mutation.  `Ok(true)` means the state changed,
    /// `Ok(false)` that the command had already taken effect (an empty
    /// diff); errors leave the state untouched.
    pub fn apply(&mut self, cmd: &ConfigCommand) -> (r: Result<bool, StateError>)
        requires
            old(self).wf(),
        ensures
            final(self).wf(),
            final(self)@ == spec_apply(old(self)@, cmd.deep_view()).0,
            r == spec_apply(old(self)@, cmd.deep_view()).1,
    {
        match cmd {
            ConfigCommand::AddHttpListener(cfg) => self.add_listener(
                ListenerConfig::Http(cfg.duplicate()),
            ),
            ConfigCommand::AddHttpsListener(cfg) => self.add_listener(
                ListenerConfig::Https(cfg.duplicate()),
            ),
            ConfigCommand::AddTcpListener(cfg) => self.add_listener(
                ListenerConfig::Tcp(cfg.clone()),
            ),
            ConfigCommand::RemoveListener { address } => {
                let state: Option<bool> = match self.listeners.get(address) {
                    Option::None => Option::None,
                    Option::Some(e) => Option::Some(e.active),
                };
                match state {
                    Option::None => {
                        proof {
                            assert(old(self)@.listeners.remove(*address) =~= old(self)@.listeners);
                        }
                        Result::Ok(false)
                    },
                    Option::Some(true) => Result::Err(StateError::ListenerStillActive),
                    Option::Some(false) => {
                        self.listeners.remove(address);
                        Result::Ok(true)
                    },
                }
            },
            ConfigCommand::ActivateListener { address } => {
                let entry: Option<ListenerEntry> = match self.listeners.get(address) {
                    Option::None => Option::None,
                    Option::Some(e) => Option::Some(e.duplicate()),
                };
                match entry {
                    Option::None => Result::Err(StateError::ListenerNotFound),
                    Option::Some(e) => {
                        if e.active {
                            Result::Ok(false)
                        } else {
                            self.listeners.insert(
                                *address,
                                ListenerEntry { config: e.config, active: true },
                            );
                            Result::Ok(true)
                        }
                    },
                }
            },
            ConfigCommand::DeactivateListener { address } => {
                let entry: Option<ListenerEntry> = match self.listeners.get(address) {
                    Option::None => Option::None,
                    Option::Some(e) => Option::Some(e.duplicate()),
                };
                match entry {
                    Option::None => Result::Err(StateError::ListenerNotFound),
                    Option::Some(e) => {
                        if !e.active {
                            Result::Ok(false)
                        } else {
                            self.listeners.insert(
                                *address,
                                ListenerEntry { config: e.config, active: false },
                            );
                            Result::Ok(true)
                        }
                    },
                }
            },
            ConfigCommand::AddCluster(c) => {
                let same: bool = match self.clusters.get(&c.cluster_id) {
                    Option::None => false,
                    Option::Some(existing) => existing.deep_eq(c),
                };
                if same {
                    Result::Ok(false)
                } else {
                    self.clusters.insert(c.cluster_id.clone(), c.duplicate());
                    Result::Ok(true)
                }
            },
            ConfigCommand::RemoveCluster { cluster_id } => {
                let removed = self.clusters.remove(cluster_id);
                proof {
                    if !old(self)@.clusters.contains_key(cluster_id@) {
                        assert(old(self)@.clusters.remove(cluster_id@) =~= old(self)@.clusters);
                    }
                }
                Result::Ok(removed)
            },
            ConfigCommand::AddHttpFrontend(f) => {
                let k = f.route_key();
                let same: bool = match self.http_frontends.get(&k) {
                    Option::None => false,
                    Option::Some(existing) => existing.deep_eq(f),
                };
                if same {
                    Result::Ok(false)
                } else {
                    self.http_frontends.insert(k, f.duplicate());
                    Result::Ok(true)
                }
            },
            ConfigCommand::RemoveHttpFrontend(f) => {
                let k = f.route_key();
                let removed = self.http_frontends.remove(&k);
                proof {
                    if !old(self)@.http_frontends.contains_key(route_key_of(f.deep_view())) {
                        assert(old(self)@.http_frontends.remove(route_key_of(f.deep_view()))
                            =~= old(self)@.http_frontends);
                    }
                }
                Result::Ok(removed)
            },
            ConfigCommand::AddHttpsFrontend(f) => {
                let k = f.route_key();
                let same: bool = match self.https_frontends.get(&k) {
                    Option::None => false,
                    Option::Some(existing) => existing.deep_eq(f),
                };
                if same {
                    Result::Ok(false)
                } else {
                    self.https_frontends.insert(k, f.duplicate());
                    Result::Ok(true)
                }
            },
            ConfigCommand::RemoveHttpsFrontend(f) => {
                let k = f.route_key();
                let removed = self.https_frontends.remove(&k);
                proof {
                    if !old(self)@.https_frontends.contains_key(route_key_of(f.deep_view())) {
                        assert(old(self)@.https_frontends.remove(route_key_of(f.deep_view()))
                            =~= old(self)@.https_frontends);
                    }
                }
                Result::Ok(removed)
            },
            ConfigCommand::AddTcpFrontend(f) => {
                let same: bool = match self.tcp_frontends.get(&f.address) {
                    Option::None => false,
                    Option::Some(existing) => existing.deep_eq(f),
                };
                if same {
                    Result::Ok(false)
                } else {
                    self.tcp_frontends.insert(f.address, f.duplicate());
                    Result::Ok(true)
                }
            },
            ConfigCommand::RemoveTcpFrontend(f) => {
                let removed = self.tcp_frontends.remove(&f.address);
                proof {
                    if !old(self)@.tcp_frontends.contains_key(f.address) {
                        assert(old(self)@.tcp_frontends.remove(f.address) =~= old(
                            self,
                        )@.tcp_frontends);
                    }
                }
                Result::Ok(removed)
            },
            ConfigCommand::AddBackend(b) => {
                let k = b.key();
                let same: bool = match self.backends.get(&k) {
                    Option::None => false,
                    Option::Some(existing) => existing.deep_eq(b),
                };
                if same {
                    Result::Ok(false)
                } else {
                    self.backends.insert(k, b.duplicate());
                    Result::Ok(true)
                }
            },
            ConfigCommand::RemoveBackend { key } => {
                let removed = self.backends.remove(key);
                proof {
                    if !old(self)@.backends.contains_key(key.deep_view()) {
                        assert(old(self)@.backends.remove(key.deep_view()) =~= old(self)@.backends);
                    }
                }
                Result::Ok(removed)
            },
            ConfigCommand::AddCertificate { key, certificate } => {
                let same: bool = match self.certificates.get(key) {
                    Option::None => false,
                    Option::Some(existing) => existing.deep_eq(certificate),
                };
                if same {
                    Result::Ok(false)
                } else {
                    self.certificates.insert(key.duplicate(), certificate.duplicate());
                    Result::Ok(true)
                }
            },
            ConfigCommand::RemoveCertificate { key } => {
                let removed = self.certificates.remove(key);
                proof {
                    if !old(self)@.certificates.contains_key(key.deep_view()) {
                        assert(old(self)@.certificates.remove(key.deep_view()) =~= old(
                            self,
                        )@.certificates);
                    }
                }
                Result::Ok(removed)
            },
        }
    }
}

/// A command sequence folded over a state, failures acting as no-ops.
pub open spec fn spec_apply_all(s: ConfigStateView, cmds: Seq<ConfigCommandView>) -> ConfigStateView
    decreases cmds.len(),
{
    if cmds.len() == 0 {
        s
    } else {
        spec_apply_all(spec_apply(s, cmds[0]).0, cmds.drop_first())
    }
}

/// Folding a sequence with one more command at its end applies that
/// command to the fold of the prefix.
pub proof fn lemma_apply_all_snoc(s: ConfigStateView, cmds: Seq<ConfigCommandView>, c: ConfigCommandView)
    ensures
        spec_apply_all(s, cmds.push(c)) == spec_apply(spec_apply_all(s, cmds), c).0,
    decreases cmds.len(),
{
    let t = cmds.push(c);
    if cmds.len() == 0 {
        assert(t[0] == c);
        assert(t.drop_first() =~= Seq::<ConfigCommandView>::empty());
        assert(spec_apply_all(s, t) == spec_apply_all(spec_apply(s, t[0]).0, t.drop_first()));
        assert(spec_apply_all(spec_apply(s, c).0, t.drop_first()) == spec_apply(s, c).0);
        assert(spec_apply_all(s, cmds) == s);
    } else {
        assert(t[0] == cmds[0]);
        assert(t.drop_first() =~= cmds.drop_first().push(c));
        assert(spec_apply_all(s, t) == spec_apply_all(spec_apply(s, t[0]).0, t.drop_first()));
        lemma_apply_all_snoc(spec_apply(s, cmds[0]).0, cmds.drop_first(), c);
        assert(spec_apply_all(s, cmds) == spec_apply_all(
            spec_apply(s, cmds[0]).0,
            cmds.drop_first(),
        ));
    }
}

impl ConfigState {
    /// Applies a whole command sequence, one command at a time; failures
    /// leave the state as it was and the surviving commands still apply.
    pub fn apply_all(&mut self, cmds: &Vec<ConfigCommand>) -> (failures: usize)
        requires
            old(self).wf(),
        ensures
            final(self).wf(),
            final(self)@ == spec_apply_all(old(self)@, cmds.deep_view()),
            failures <= cmds@.len(),
    {
        let mut failures: usize = 0;
        let mut i: usize = 0;
        while i < cmds.len()
            invariant
                0 <= i <= cmds@.len(),
                failures <= i,
                self.wf(),
                self@ == spec_apply_all(old(self)@, cmds.deep_view().take(i as int)),
            decreases cmds@.len() - i,
        {
            let ghost pre = self@;
            let r = self.apply(&cmds[i]);
            if r.is_err() {
                failures += 1;
            }
            proof {
                assert(cmds.deep_view().take(i as int).push(cmds.deep_view()[i as int])
                    =~= cmds.deep_view().take(i + 1));
                lemma_apply_all_snoc(
                    old(self)@,
                    cmds.deep_view().take(i as int),
                    cmds.deep_view()[i as int],
                );
            }
            i += 1;
        }
        proof {
            assert(cmds.deep_view().take(cmds@.len() as int) =~= cmds.deep_view());
        }
        failures
    }
}

/// Applying the empty command list to any state is a no-op.
pub proof fn lemma_apply_empty_is_noop(s: ConfigStateView)
    ensures
        spec_apply_all(s, Seq::<ConfigCommandView>::empty()) == s,
{
}

/// Re-applying a single command is idempotent: whatever one application
/// did, a second application of the same command changes nothing; when the
/// first application succeeded the second reports an empty diff and does
/// not fail, and when it was refused the second is refused the same way.
pub proof fn lemma_apply_idempotent(s: ConfigStateView, c: ConfigCommandView)
    ensures
        spec_apply(spec_apply(s, c).0, c).0 == spec_apply(s, c).0,
        spec_apply(s, c).1 is Ok ==> spec_apply(spec_apply(s, c).0, c).1 == Result::<
            bool,
            StateError,
        >::Ok(false),
        spec_apply(s, c).1 is Err ==> spec_apply(spec_apply(s, c).0, c).1 == spec_apply(s, c).1,
{
}

} // verus!

verus! {

/// One step of the drift hash: fold a byte into an FNV-1a accumulator.
pub open spec fn spec_hash_step(h: u64, byte: u8) -> u64 {
    vstd::wrapping::u64_specs::wrapping_mul(h ^ (byte as u64), 0x100000001b3)
}

/// One character folded into the drift hash, low byte first.
pub open spec fn spec_hash_char(h: u64, c: char) -> u64 {
    spec_hash_step(
        spec_hash_step(
            spec_hash_step(
                spec_hash_step(h, (c as u32 & 0xff) as u8),
                ((c as u32 >> 8) & 0xff) as u8,
            ),
            ((c as u32 >> 16) & 0xff) as u8,
        ),
        ((c as u32 >> 24) & 0xff) as u8,
    )
}

/// A character sequence folded into the drift hash.
pub open spec fn spec_hash_chars(h: u64, s: Seq<char>) -> u64
    decreases s.len(),
{
    if s.len() == 0 {
        h
    } else {
        spec_hash_chars(spec_hash_char(h, s[0]), s.drop_first())
    }
}

/// Folds a string into a drift hash accumulator.
pub fn hash_chars(h0: u64, s: &str) -> (r: u64)
    ensures
        r == spec_hash_chars(h0, s@),
{
    let n = s.unicode_len();
    let mut h = h0;
    let mut i: usize = 0;
    proof {
        assert(s@.skip(0) =~= s@);
    }
    while i < n
        invariant
            0 <= i <= n,
            n == s@.len(),
            spec_hash_chars(h, s@.skip(i as int)) == spec_hash_chars(h0, s@),
        decreases n - i,
    {
        let c = s.get_char(i) as u32;
        let ghost pre = h;
        let b0 = (c & 0xff) as u8;
        let b1 = ((c >> 8) & 0xff) as u8;
        let b2 = ((c >> 16) & 0xff) as u8;
        let b3 = ((c >> 24) & 0xff) as u8;
        h = (h ^ (b0 as u64)).wrapping_mul(0x100000001b3);
        h = (h ^ (b1 as u64)).wrapping_mul(0x100000001b3);
        h = (h ^ (b2 as u64)).wrapping_mul(0x100000001b3);
        h = (h ^ (b3 as u64)).wrapping_mul(0x100000001b3);
        proof {
            assert(h == spec_hash_char(pre, s@[i as int]));
            assert(s@.skip(i as int)[0] == s@[i as int]);
            assert(s@.skip(i as int).drop_first() =~= s@.skip(i + 1));
        }
        i += 1;
    }
    proof {
        assert(s@.skip(n as int) =~= Seq::<char>::empty());
    }
    h
}

/// The drift hash of one cluster: its record's id and the ids of its
/// backends, folded in table order into an FNV-1a accumulator seeded with
/// the offset basis.  The supervisor and a worker that agree on a
/// cluster's configuration agree on this number.
pub open spec fn spec_cluster_hash(
    cluster_id: Seq<char>,
    backends: Seq<(BackendKeyView, BackendView)>,
) -> u64
    decreases backends.len(),
{
    if backends.len() == 0 {
        spec_hash_chars(0xcbf29ce484222325, cluster_id)
    } else {
        let prefix = spec_cluster_hash(cluster_id, backends.drop_last());
        if backends.last().0.cluster_id == cluster_id {
            spec_hash_chars(prefix, backends.last().1.backend_id)
        } else {
            prefix
        }
    }
}

impl ConfigState {
    /// The stable drift hash of a cluster, used to detect divergence
    /// between the supervisor's state and a worker's projection.
    pub fn cluster_hash(&self, cluster_id: &String) -> (r: u64)
        ensures
            r == spec_cluster_hash(cluster_id@, self.backends.entries.deep_view()),
    {
        let mut h = hash_chars(0xcbf29ce484222325, cluster_id.as_str());
        let ghost ents = self.backends.entries.deep_view();
        proof {
            assert(ents.take(0) =~= Seq::<(BackendKeyView, BackendView)>::empty());
        }
        let mut i: usize = 0;
        while i < self.backends.entries.len()
            invariant
                0 <= i <= self.backends.entries@.len(),
                ents == self.backends.entries.deep_view(),
                h == spec_cluster_hash(cluster_id@, ents.take(i as int)),
            decreases self.backends.entries@.len() - i,
        {
            if self.backends.entries[i].0.cluster_id == *cluster_id {
                h = hash_chars(h, self.backends.entries[i].1.backend_id.as_str());
            }
            proof {
                assert(ents.take(i + 1).drop_last() =~= ents.take(i as int));
                assert(ents.take(i + 1).last() == ents[i as int]);
                assert(ents[i as int] == self.backends.entries@[i as int].deep_view());
            }
            i += 1;
        }
        proof {
            assert(ents.take(self.backends.entries@.len() as int) =~= ents);
        }
        h
    }
}

} // verus!
