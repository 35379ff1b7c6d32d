//! Responses of the main process to the CLI (or other client), answers to
//! queries, and the metrics that workers report.

use vstd::prelude::*;

use crate::net::SocketAddress;
use crate::state::ConfigState;
use crate::types::{
    Backend, Cluster, HttpFrontend, HttpListenerConfig, HttpsListenerConfig, PROTOCOL_VERSION,
    Percentiles, TcpFrontend, TcpListenerConfig, WorkerInfo,
};

verus! {

/// Response status: final success, a progress note, or final failure.
pub use crate::types::ResponseStatus;

/// A response id on the wire.
pub type MessageId = String;

/// A single metric value, as filtered for the CLI.
#[derive(Debug, Clone, PartialEq, Eq, Hash)]
pub enum FilteredData {
    Gauge(usize),
    Count(i64),
    Time(usize),
    Percentiles(Percentiles),
    TimeSerie(FilteredTimeSerie),
}

/// A per-second time series of a counter.
#[derive(Debug, Clone, PartialEq, Eq, Hash)]
pub struct FilteredTimeSerie {
    pub last_second: u32,
    pub last_minute: Vec<u32>,
    pub last_hour: Vec<u32>,
}

/// Backend byte counters with latency percentiles.
#[derive(Debug, Clone, PartialEq, Eq)]
pub struct BackendMetricsData {
    pub bytes_in: usize,
    pub bytes_out: usize,
    pub percentiles: Percentiles,
}

/// The metrics of a given cluster, with several backends.
#[derive(Debug, Clone, PartialEq, Eq)]
pub struct ClusterMetricsData {
    /// metric name -> metric value
    pub cluster: Option<Vec<(String, FilteredData)>>,
    /// backend id -> (metric name -> metric value)
    pub backends: Option<Vec<(String, Vec<(String, FilteredData)>)>>,
}

/// All metrics of a worker: proxy and clusters, populated by options so
/// partial results can be sent.
#[derive(Debug, Clone, PartialEq, Eq)]
pub struct WorkerMetrics {
    /// metrics of the worker process, key -> value
    pub proxy: Option<Vec<(String, FilteredData)>>,
    /// cluster id -> cluster metrics
    pub clusters: Option<Vec<(String, ClusterMetricsData)>>,
}

/// Returned by the local drain.
#[derive(Debug, Clone, PartialEq, Eq)]
pub enum QueryAnswerMetrics {
    /// (list of proxy metrics, list of cluster metrics)
    List(Vec<String>, Vec<String>),
    /// all worker metrics, proxy & clusters
    All(WorkerMetrics),
    /// used to trickle up errors to the CLI
    Error(String),
}

/// Everything a worker knows of one cluster.
#[derive(Debug, Clone, PartialEq, Eq)]
pub struct QueryAnswerCluster {
    pub configuration: Option<Cluster>,
    pub http_frontends: Vec<HttpFrontend>,
    pub https_frontends: Vec<HttpFrontend>,
    pub tcp_frontends: Vec<TcpFrontend>,
    pub backends: Vec<Backend>,
}

/// Certificates as a worker reports them.
#[derive(Debug, Clone, PartialEq, Eq)]
pub enum QueryAnswerCertificate {
    /// for each listener address: domain -> fingerprint
    All(Vec<(SocketAddress, Vec<(String, Vec<u8>)>)>),
    /// for each listener address: the certificate of one domain
    Domain(Vec<(SocketAddress, Option<(String, Vec<u8>)>)>),
    /// one certificate, with its names
    Fingerprint(Option<(String, Vec<String>)>),
}

/// Details of a query answer, sent by a worker.
#[derive(Debug, Clone, PartialEq, Eq)]
pub enum QueryAnswer {
    Clusters(Vec<QueryAnswerCluster>),
    /// cluster id -> hash of cluster information
    ClustersHashes(Vec<(String, u64)>),
    Certificates(QueryAnswerCertificate),
    Metrics(QueryAnswerMetrics),
}

/// Aggregated metrics of main process and workers, for the CLI.
#[derive(Debug, Clone, PartialEq, Eq)]
pub struct AggregatedMetricsData {
    pub main: Vec<(String, FilteredData)>,
    pub workers: Vec<(String, QueryAnswer)>,
}

/// A filtered list of frontends.
#[derive(Debug, Clone, PartialEq, Eq)]
pub struct ListedFrontends {
    pub http_frontends: Vec<HttpFrontend>,
    pub https_frontends: Vec<HttpFrontend>,
    pub tcp_frontends: Vec<TcpFrontend>,
}

/// All listeners, listed for the CLI; the flag tells whether one is active.
#[derive(Debug, Clone, PartialEq, Eq)]
pub struct ListenersList {
    pub http_listeners: Vec<(SocketAddress, HttpListenerConfig, bool)>,
    pub https_listeners: Vec<(SocketAddress, HttpsListenerConfig, bool)>,
    pub tcp_listeners: Vec<(SocketAddress, TcpListenerConfig, bool)>,
}

/// A backend event that happened on a proxy.
#[derive(Debug, Clone, PartialEq, Eq, Hash)]
pub enum ProxyEvent {
    BackendDown(String, SocketAddress),
    BackendUp(String, SocketAddress),
    NoAvailableBackends(String),
    RemovedBackendHasNoConnections(String, SocketAddress),
}

/// A backend event as forwarded to subscribed clients.
#[derive(Debug, Clone, PartialEq, Eq, Hash)]
pub enum Event {
    BackendDown(String, SocketAddress),
    BackendUp(String, SocketAddress),
    NoAvailableBackends(String),
    /// a backend removed from the configuration has no lingering
    /// connections left, so it can be safely stopped
    RemovedBackendHasNoConnections(String, SocketAddress),
}

impl From<ProxyEvent> for Event {
    fn from(e: ProxyEvent) -> (r: Self) {
        match e {
            ProxyEvent::BackendDown(id, addr) => Event::BackendDown(id, addr),
            ProxyEvent::BackendUp(id, addr) => Event::BackendUp(id, addr),
            ProxyEvent::NoAvailableBackends(cluster_id) => Event::NoAvailableBackends(cluster_id),
            ProxyEvent::RemovedBackendHasNoConnections(id, addr) => {
                Event::RemovedBackendHasNoConnections(id, addr)
            },
        }
    }
}

impl vstd::std_specs::convert::FromSpecImpl<ProxyEvent> for Event {
    open spec fn obeys_from_spec() -> bool {
        true
    }

    open spec fn from_spec(e: ProxyEvent) -> Event {
        match e {
            ProxyEvent::BackendDown(id, addr) => Event::BackendDown(id, addr),
            ProxyEvent::BackendUp(id, addr) => Event::BackendUp(id, addr),
            ProxyEvent::NoAvailableBackends(cluster_id) => Event::NoAvailableBackends(cluster_id),
            ProxyEvent::RemovedBackendHasNoConnections(id, addr) => {
                Event::RemovedBackendHasNoConnections(id, addr)
            },
        }
    }
}

/// What a worker answered one request with.
#[derive(Debug, Clone, PartialEq, Eq, Hash)]
pub enum ProxyResponseStatus {
    Okay,
    Processing,
    Error(String),
}

/// Typed content a worker attaches to a response.
#[derive(Debug, Clone, PartialEq, Eq)]
pub enum ProxyResponseContent {
    /// contains proxy & cluster metrics
    Metrics(WorkerMetrics),
    Query(QueryAnswer),
    Event(ProxyEvent),
}

/// A worker's answer to one request of the supervisor.
#[derive(Debug, Clone, PartialEq, Eq)]
pub struct ProxyResponse {
    pub id: MessageId,
    pub status: ProxyResponseStatus,
    pub content: Option<ProxyResponseContent>,
}

impl ProxyResponse {
    /// A final success answering the given request id.
    pub fn ok(id: String) -> (r: Self)
        ensures
            r.id == id,
            r.status == ProxyResponseStatus::Okay,
            r.content is None,
    {
        ProxyResponse { id, status: ProxyResponseStatus::Okay, content: Option::None }
    }

    /// A final error answering the given request id.
    pub fn error(id: String, error: String) -> (r: Self)
        ensures
            r.id == id,
            r.status == ProxyResponseStatus::Error(error),
            r.content is None,
    {
        ProxyResponse { id, status: ProxyResponseStatus::Error(error), content: Option::None }
    }

    /// A progress note answering the given request id.
    pub fn processing(id: String) -> (r: Self)
        ensures
            r.id == id,
            r.status == ProxyResponseStatus::Processing,
            r.content is None,
    {
        ProxyResponse { id, status: ProxyResponseStatus::Processing, content: Option::None }
    }

    /// An answer with the given status and no content.
    pub fn status(id: String, status: ProxyResponseStatus) -> (r: Self)
        ensures
            r.id == id,
            r.status == status,
            r.content is None,
    {
        ProxyResponse { id, status, content: Option::None }
    }
}

/// Typed content of a response to a client.
#[derive(Debug, Clone, PartialEq, Eq)]
pub enum ResponseContent {
    /// a list of workers, with ids, pids, statuses
    Workers(Vec<WorkerInfo>),
    /// aggregated metrics of main process and workers
    Metrics(AggregatedMetricsData),
    /// worker responses to a same query: worker id -> query answer
    Query(Vec<(String, QueryAnswer)>),
    /// the state of the supervisor: frontends, backends, listeners
    State(Box<ConfigState>),
    /// a proxy event
    Event(Event),
    /// a filtered list of frontends
    FrontendList(ListedFrontends),
    /// a list of workers, for the status command
    Status(Vec<WorkerInfo>),
    /// all listeners
    ListenersList(ListenersList),
}

/// A response of the main process to the CLI (or other client).
#[derive(Debug, Clone, PartialEq, Eq)]
pub struct Response {
    pub id: MessageId,
    pub version: u8,
    pub status: ResponseStatus,
    pub message: String,
    pub content: Option<ResponseContent>,
}

impl Response {
    /// A response carrying the protocol version and a placeholder id;
    /// the command server replaces the id with the request's own before
    /// the response leaves the process.
    pub fn new(status: ResponseStatus, message: String, content: Option<ResponseContent>) -> (r:
        Response)
        ensures
            r.version == PROTOCOL_VERSION,
            r.id@ == "generic-response-id-to-be-removed"@,
            r.status == status,
            r.message == message,
            r.content == content,
    {
        Response {
            version: PROTOCOL_VERSION,
            id: String::from_str("generic-response-id-to-be-removed"),
            status,
            message,
            content,
        }
    }

    /// A response that answers the request with the given id.
    pub fn answering(
        id: String,
        status: ResponseStatus,
        message: String,
        content: Option<ResponseContent>,
    ) -> (r: Response)
        ensures
            r.version == PROTOCOL_VERSION,
            r.id == id,
            r.status == status,
            r.message == message,
            r.content == content,
    {
        Response { version: PROTOCOL_VERSION, id, status, message, content }
    }
}

} // verus!
