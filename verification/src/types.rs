//! The command protocol's data model: frontends, backends, clusters,
//! listener configurations, worker descriptions and the response types the
//! supervisor sends back to its clients.
//!
//! Every type that the configuration state stores gets a deep view (strings
//! become `Seq<char>`, vectors become `Seq`), so that contracts can state
//! value equality independently of heap identity.

use vstd::prelude::*;

use crate::net::SocketAddress;

verus! {

/// Protocol version constant carried by every response.
pub const PROTOCOL_VERSION: u8 = 0;

/// Deciding deep-view equality in executable code.
///
/// `deep_eq` returns true exactly when the two values have equal deep views;
/// the configuration tables and the diff computation are built on it.
pub trait DeepEq: DeepView + Sized {
    fn deep_eq(&self, other: &Self) -> (r: bool)
        ensures
            r <==> self.deep_view() == other.deep_view(),
    ;
}

impl DeepEq for String {
    fn deep_eq(&self, other: &Self) -> (r: bool) {
        *self == *other
    }
}

impl DeepEq for SocketAddress {
    fn deep_eq(&self, other: &Self) -> (r: bool) {
        *self == *other
    }
}

/// Equality of optional strings, by contents.
pub fn opt_string_eq(a: &Option<String>, b: &Option<String>) -> (r: bool)
    ensures
        r <==> a.deep_view() == b.deep_view(),
{
    match (a, b) {
        (Option::None, Option::None) => true,
        (Option::Some(x), Option::Some(y)) => *x == *y,
        _ => {
            proof {
                assert(a.deep_view() is Some <==> a is Some);
            }
            false
        },
    }
}

/// Equality of string vectors, by contents.
pub fn vec_string_eq(a: &Vec<String>, b: &Vec<String>) -> (r: bool)
    ensures
        r <==> a.deep_view() == b.deep_view(),
{
    if a.len() != b.len() {
        proof {
            assert(a.deep_view().len() != b.deep_view().len());
        }
        return false;
    }
    let mut i: usize = 0;
    while i < a.len()
        invariant
            0 <= i <= a.len(),
            a.len() == b.len(),
            forall|j: int| 0 <= j < i ==> a.deep_view()[j] == b.deep_view()[j],
        decreases a.len() - i,
    {
        if !(a[i] == b[i]) {
            proof {
                assert(a.deep_view()[i as int] != b.deep_view()[i as int]);
            }
            return false;
        }
        i += 1;
    }
    proof {
        assert(a.deep_view() =~= b.deep_view());
    }
    true
}

/// Clones a string vector, keeping the deep view.
pub fn clone_vec_string(v: &Vec<String>) -> (r: Vec<String>)
    ensures
        r.deep_view() == v.deep_view(),
{
    let mut r: Vec<String> = Vec::new();
    let mut i: usize = 0;
    while i < v.len()
        invariant
            0 <= i <= v.len(),
            r.len() == i,
            forall|j: int| 0 <= j < i ==> r.deep_view()[j] == v.deep_view()[j],
        decreases v.len() - i,
    {
        r.push(v[i].clone());
        i += 1;
    }
    proof {
        assert(r.deep_view() =~= v.deep_view());
    }
    r
}

/// Clones an optional string, keeping the deep view.
pub fn clone_opt_string(v: &Option<String>) -> (r: Option<String>)
    ensures
        r.deep_view() == v.deep_view(),
{
    match v {
        Option::None => Option::None,
        Option::Some(s) => Option::Some(s.clone()),
    }
}

/// Status of a response to a client: final success, a progress note while
/// workers answer, or final failure.
#[derive(Debug, Clone, Copy, PartialEq, Eq, Structural, Hash)]
pub enum ResponseStatus {
    Okay,
    Processing,
    Failure,
}

/// The cluster to which a frontend's traffic is redirected.
#[derive(Debug, Clone, PartialEq, Eq, Hash)]
pub enum Route {
    /// send a 401 default answer
    Deny,
    /// the cluster to which the frontend belongs
    ClusterId(String),
}

pub ghost enum RouteView {
    Deny,
    ClusterId(Seq<char>),
}

impl DeepView for Route {
    type V = RouteView;

    open spec fn deep_view(&self) -> RouteView {
        match self {
            Route::Deny => RouteView::Deny,
            Route::ClusterId(id) => RouteView::ClusterId(id@),
        }
    }
}

impl DeepEq for Route {
    fn deep_eq(&self, other: &Self) -> (r: bool) {
        match (self, other) {
            (Route::Deny, Route::Deny) => true,
            (Route::ClusterId(a), Route::ClusterId(b)) => *a == *b,
            _ => false,
        }
    }
}

impl Route {
    /// Clones the route, keeping the deep view.
    pub fn duplicate(&self) -> (r: Route)
        ensures
            r.deep_view() == self.deep_view(),
    {
        match self {
            Route::Deny => Route::Deny,
            Route::ClusterId(id) => Route::ClusterId(id.clone()),
        }
    }
}

/// Priority bucket used during frontend matching: `Pre` rules match first,
/// then `Tree`, then `Post`.
#[derive(Debug, Clone, Copy, PartialEq, Eq, Structural, Hash)]
pub enum RulePosition {
    Pre,
    Post,
    Tree,
}

impl Default for RulePosition {
    fn default() -> (r: Self)
        ensures
            r == RulePosition::Tree,
    {
        RulePosition::Tree
    }
}

/// A filter for the path of incoming requests.
#[derive(Debug, Clone, PartialEq, Eq, Hash)]
pub enum PathRule {
    /// filters paths that start with a pattern, typically "/api"
    Prefix(String),
    /// filters paths that match a regex pattern
    Regex(String),
    /// filters paths that exactly match a pattern, no more, no less
    Equals(String),
}

pub ghost enum PathRuleView {
    Prefix(Seq<char>),
    Regex(Seq<char>),
    Equals(Seq<char>),
}

impl DeepView for PathRule {
    type V = PathRuleView;

    open spec fn deep_view(&self) -> PathRuleView {
        match self {
            PathRule::Prefix(s) => PathRuleView::Prefix(s@),
            PathRule::Regex(s) => PathRuleView::Regex(s@),
            PathRule::Equals(s) => PathRuleView::Equals(s@),
        }
    }
}

impl DeepEq for PathRule {
    fn deep_eq(&self, other: &Self) -> (r: bool) {
        match (self, other) {
            (PathRule::Prefix(a), PathRule::Prefix(b)) => *a == *b,
            (PathRule::Regex(a), PathRule::Regex(b)) => *a == *b,
            (PathRule::Equals(a), PathRule::Equals(b)) => *a == *b,
            _ => false,
        }
    }
}

impl PathRule {
    /// Picks the path rule requested on a command line: an explicit prefix
    /// wins, then a regex, then an exact match; with nothing given, the
    /// default (empty prefix) is used.
    pub fn from_cli_options(
        path_prefix: Option<String>,
        path_regex: Option<String>,
        path_equals: Option<String>,
    ) -> (r: Self)
        ensures
            r.deep_view() == match (path_prefix, path_regex, path_equals) {
                (Option::Some(prefix), _, _) => PathRuleView::Prefix(prefix@),
                (Option::None, Option::Some(regex), _) => PathRuleView::Regex(regex@),
                (Option::None, Option::None, Option::Some(equals)) => PathRuleView::Equals(
                    equals@,
                ),
                (Option::None, Option::None, Option::None) => PathRuleView::Prefix(
                    Seq::<char>::empty(),
                ),
            },
    {
        match (path_prefix, path_regex, path_equals) {
            (Option::Some(prefix), _, _) => PathRule::Prefix(prefix),
            (Option::None, Option::Some(regex), _) => PathRule::Regex(regex),
            (Option::None, Option::None, Option::Some(equals)) => PathRule::Equals(equals),
            _ => PathRule::default(),
        }
    }

    /// Clones the path rule, keeping the deep view.
    pub fn duplicate(&self) -> (r: PathRule)
        ensures
            r.deep_view() == self.deep_view(),
    {
        match self {
            PathRule::Prefix(s) => PathRule::Prefix(s.clone()),
            PathRule::Regex(s) => PathRule::Regex(s.clone()),
            PathRule::Equals(s) => PathRule::Equals(s.clone()),
        }
    }
}

impl Default for PathRule {
    fn default() -> (r: Self)
        ensures
            r.deep_view() == PathRuleView::Prefix(Seq::<char>::empty()),
    {
        PathRule::Prefix(String::new())
    }
}

/// True exactly for the default path rule, the empty prefix.
pub fn is_default_path_rule(p: &PathRule) -> (r: bool)
    ensures
        r <==> p.deep_view() == PathRuleView::Prefix(Seq::<char>::empty()),
{
    match p {
        PathRule::Regex(_) => false,
        PathRule::Equals(_) => false,
        PathRule::Prefix(s) => {
            let e = s.as_str().is_empty();
            proof {
                if e {
                    assert(s@ =~= Seq::<char>::empty());
                }
            }
            e
        },
    }
}

} // verus!

use crate::net::IpAddress;

verus! {

/// Small ordered tag maps carried by frontends: absent (`None`) is distinct
/// from present but empty.
pub type Tags = Vec<(String, String)>;

/// Equality of tag maps, by contents.
pub fn tags_eq(a: &Option<Tags>, b: &Option<Tags>) -> (r: bool)
    ensures
        r <==> a.deep_view() == b.deep_view(),
{
    match (a, b) {
        (Option::None, Option::None) => true,
        (Option::Some(x), Option::Some(y)) => {
            if x.len() != y.len() {
                proof {
                    assert(x.deep_view().len() != y.deep_view().len());
                }
                return false;
            }
            let mut i: usize = 0;
            while i < x.len()
                invariant
                    0 <= i <= x.len(),
                    x.len() == y.len(),
                    a == Option::Some(*x),
                    b == Option::Some(*y),
                    forall|j: int| 0 <= j < i ==> x.deep_view()[j] == y.deep_view()[j],
                decreases x.len() - i,
            {
                if !(x[i].0 == y[i].0) || !(x[i].1 == y[i].1) {
                    proof {
                        assert(x.deep_view()[i as int] != y.deep_view()[i as int]);
                    }
                    return false;
                }
                proof {
                    assert(x.deep_view()[i as int] == y.deep_view()[i as int]);
                }
                i += 1;
            }
            proof {
                assert(x.deep_view() =~= y.deep_view());
            }
            true
        },
        _ => false,
    }
}

/// Clones a tag map, keeping the deep view.
pub fn clone_tags(v: &Option<Tags>) -> (r: Option<Tags>)
    ensures
        r.deep_view() == v.deep_view(),
{
    match v {
        Option::None => Option::None,
        Option::Some(x) => {
            let mut out: Tags = Vec::new();
            let mut i: usize = 0;
            while i < x.len()
                invariant
                    0 <= i <= x.len(),
                    out.len() == i,
                    forall|j: int| 0 <= j < i ==> out.deep_view()[j] == x.deep_view()[j],
                decreases x.len() - i,
            {
                out.push((x[i].0.clone(), x[i].1.clone()));
                i += 1;
            }
            proof {
                assert(out.deep_view() =~= x.deep_view());
            }
            Option::Some(out)
        },
    }
}

/// A matching rule mapping inbound HTTP(S) traffic on a listener to a
/// cluster or a deny action.
#[derive(Debug, Clone, PartialEq, Eq, Hash)]
pub struct HttpFrontend {
    pub route: Route,
    pub address: SocketAddress,
    pub hostname: String,
    pub path: PathRule,
    pub method: Option<String>,
    pub position: RulePosition,
    pub tags: Option<Tags>,
}

pub ghost struct HttpFrontendView {
    pub route: RouteView,
    pub address: SocketAddress,
    pub hostname: Seq<char>,
    pub path: PathRuleView,
    pub method: Option<Seq<char>>,
    pub position: RulePosition,
    pub tags: Option<Seq<(Seq<char>, Seq<char>)>>,
}

impl DeepView for HttpFrontend {
    type V = HttpFrontendView;

    open spec fn deep_view(&self) -> HttpFrontendView {
        HttpFrontendView {
            route: self.route.deep_view(),
            address: self.address,
            hostname: self.hostname@,
            path: self.path.deep_view(),
            method: self.method.deep_view(),
            position: self.position,
            tags: self.tags.deep_view(),
        }
    }
}

impl DeepEq for HttpFrontend {
    fn deep_eq(&self, other: &Self) -> (r: bool) {
        self.route.deep_eq(&other.route) && self.address == other.address && self.hostname
            == other.hostname && self.path.deep_eq(&other.path) && opt_string_eq(
            &self.method,
            &other.method,
        ) && self.position == other.position && tags_eq(&self.tags, &other.tags)
    }
}

/// The identifying part of an HTTP(S) frontend: everything but its route
/// and tags.  Two frontend insertions with the same key replace each other.
#[derive(Debug, Clone, PartialEq, Eq, Hash)]
pub struct RouteKey {
    pub address: SocketAddress,
    pub hostname: String,
    pub path: PathRule,
    pub method: Option<String>,
    pub position: RulePosition,
}

pub ghost struct RouteKeyView {
    pub address: SocketAddress,
    pub hostname: Seq<char>,
    pub path: PathRuleView,
    pub method: Option<Seq<char>>,
    pub position: RulePosition,
}

impl DeepView for RouteKey {
    type V = RouteKeyView;

    open spec fn deep_view(&self) -> RouteKeyView {
        RouteKeyView {
            address: self.address,
            hostname: self.hostname@,
            path: self.path.deep_view(),
            method: self.method.deep_view(),
            position: self.position,
        }
    }
}

impl DeepEq for RouteKey {
    fn deep_eq(&self, other: &Self) -> (r: bool) {
        self.address == other.address && self.hostname == other.hostname && self.path.deep_eq(
            &other.path,
        ) && opt_string_eq(&self.method, &other.method) && self.position == other.position
    }
}

/// The key under which a frontend's view is identified.
pub open spec fn route_key_of(f: HttpFrontendView) -> RouteKeyView {
    RouteKeyView {
        address: f.address,
        hostname: f.hostname,
        path: f.path,
        method: f.method,
        position: f.position,
    }
}

impl HttpFrontend {
    /// True exactly when the frontend is dedicated to the given cluster.
    pub fn is_cluster_id(&self, cluster_id: &str) -> (r: bool)
        ensures
            r <==> self.deep_view().route == RouteView::ClusterId(cluster_id@),
    {
        match &self.route {
            Route::ClusterId(id) => {
                let c = String::from_str(cluster_id);
                *id == c
            },
            Route::Deny => false,
        }
    }

    /// The frontend's identity as a route key.
    pub fn route_key(&self) -> (r: RouteKey)
        ensures
            r.deep_view() == route_key_of(self.deep_view()),
    {
        RouteKey {
            address: self.address,
            hostname: self.hostname.clone(),
            path: self.path.duplicate(),
            method: clone_opt_string(&self.method),
            position: self.position,
        }
    }

    /// Clones the frontend, keeping the deep view.
    pub fn duplicate(&self) -> (r: HttpFrontend)
        ensures
            r.deep_view() == self.deep_view(),
    {
        HttpFrontend {
            route: self.route.duplicate(),
            address: self.address,
            hostname: self.hostname.clone(),
            path: self.path.duplicate(),
            method: clone_opt_string(&self.method),
            position: self.position,
            tags: clone_tags(&self.tags),
        }
    }
}

/// A matching rule mapping all traffic of a TCP listener to a cluster.
#[derive(Debug, Clone, PartialEq, Eq, Hash)]
pub struct TcpFrontend {
    pub cluster_id: String,
    pub address: SocketAddress,
    pub tags: Option<Tags>,
}

pub ghost struct TcpFrontendView {
    pub cluster_id: Seq<char>,
    pub address: SocketAddress,
    pub tags: Option<Seq<(Seq<char>, Seq<char>)>>,
}

impl DeepView for TcpFrontend {
    type V = TcpFrontendView;

    open spec fn deep_view(&self) -> TcpFrontendView {
        TcpFrontendView {
            cluster_id: self.cluster_id@,
            address: self.address,
            tags: self.tags.deep_view(),
        }
    }
}

impl DeepEq for TcpFrontend {
    fn deep_eq(&self, other: &Self) -> (r: bool) {
        self.cluster_id == other.cluster_id && self.address == other.address && tags_eq(
            &self.tags,
            &other.tags,
        )
    }
}

impl TcpFrontend {
    /// Clones the frontend, keeping the deep view.
    pub fn duplicate(&self) -> (r: TcpFrontend)
        ensures
            r.deep_view() == self.deep_view(),
    {
        TcpFrontend {
            cluster_id: self.cluster_id.clone(),
            address: self.address,
            tags: clone_tags(&self.tags),
        }
    }
}

/// How a cluster spreads traffic over its backends.
#[derive(Debug, Clone, Copy, PartialEq, Eq, Structural, Hash)]
pub enum LoadBalancingAlgorithm {
    RoundRobin,
    Random,
    LeastLoaded,
    PowerOfTwo,
}

/// The protocol a cluster speaks towards its backends.
#[derive(Debug, Clone, Copy, PartialEq, Eq, Structural, Hash)]
pub enum ProtocolVersion {
    Http1,
    Http2,
}

/// A named group of backends serving one logical service.
#[derive(Debug, Clone, PartialEq, Eq, Hash)]
pub struct Cluster {
    pub cluster_id: String,
    /// identifies sticky sessions
    pub sticky_name: String,
    pub load_balancing: LoadBalancingAlgorithm,
    pub protocol_version: ProtocolVersion,
    /// liveness probe period in seconds; absent means no health checks
    pub health_check_interval: Option<u32>,
}

pub ghost struct ClusterView {
    pub cluster_id: Seq<char>,
    pub sticky_name: Seq<char>,
    pub load_balancing: LoadBalancingAlgorithm,
    pub protocol_version: ProtocolVersion,
    pub health_check_interval: Option<u32>,
}

impl DeepView for Cluster {
    type V = ClusterView;

    open spec fn deep_view(&self) -> ClusterView {
        ClusterView {
            cluster_id: self.cluster_id@,
            sticky_name: self.sticky_name@,
            load_balancing: self.load_balancing,
            protocol_version: self.protocol_version,
            health_check_interval: self.health_check_interval,
        }
    }
}

impl DeepEq for Cluster {
    fn deep_eq(&self, other: &Self) -> (r: bool) {
        self.cluster_id == other.cluster_id && self.sticky_name == other.sticky_name
            && self.load_balancing == other.load_balancing && self.protocol_version
            == other.protocol_version && self.health_check_interval == other.health_check_interval
    }
}

impl Cluster {
    /// Clones the cluster record, keeping the deep view.
    pub fn duplicate(&self) -> (r: Cluster)
        ensures
            r.deep_view() == self.deep_view(),
    {
        Cluster {
            cluster_id: self.cluster_id.clone(),
            sticky_name: self.sticky_name.clone(),
            load_balancing: self.load_balancing,
            protocol_version: self.protocol_version,
            health_check_interval: self.health_check_interval,
        }
    }
}

} // verus!

verus! {

/// Lexicographic order on character sequences: true when `a` comes strictly
/// before `b`.
pub open spec fn chars_lt(a: Seq<char>, b: Seq<char>) -> bool
    decreases a.len(),
{
    if b.len() == 0 {
        false
    } else if a.len() == 0 {
        true
    } else if a[0] != b[0] {
        a[0] < b[0]
    } else {
        chars_lt(a.drop_first(), b.drop_first())
    }
}

/// With the first `i` characters pairwise equal, the lexicographic order is
/// decided by the remainders.
proof fn lemma_chars_lt_common_prefix(a: Seq<char>, b: Seq<char>, i: int)
    requires
        0 <= i <= a.len(),
        i <= b.len(),
        forall|j: int| 0 <= j < i ==> a[j] == b[j],
    ensures
        chars_lt(a, b) <==> chars_lt(a.skip(i), b.skip(i)),
    decreases i,
{
    if i > 0 {
        assert(a[0] == b[0]);
        lemma_chars_lt_common_prefix(a.drop_first(), b.drop_first(), i - 1);
        assert(a.skip(i) =~= a.drop_first().skip(i - 1));
        assert(b.skip(i) =~= b.drop_first().skip(i - 1));
    } else {
        assert(a.skip(0) =~= a);
        assert(b.skip(0) =~= b);
    }
}

/// Three-way comparison of character sequences.
pub open spec fn spec_chars_cmp(a: Seq<char>, b: Seq<char>) -> core::cmp::Ordering {
    if a == b {
        core::cmp::Ordering::Equal
    } else if chars_lt(a, b) {
        core::cmp::Ordering::Less
    } else {
        core::cmp::Ordering::Greater
    }
}

/// Compares two strings lexicographically by characters.
pub fn str_cmp(a: &str, b: &str) -> (r: core::cmp::Ordering)
    ensures
        r == spec_chars_cmp(a@, b@),
{
    let alen = a.unicode_len();
    let blen = b.unicode_len();
    let min: usize = if alen < blen {
        alen
    } else {
        blen
    };
    let mut i: usize = 0;
    while i < min
        invariant
            0 <= i <= min,
            alen == a@.len(),
            blen == b@.len(),
            min == if alen < blen {
                alen
            } else {
                blen
            },
            forall|j: int| 0 <= j < i ==> a@[j] == b@[j],
        decreases min - i,
    {
        let ca = a.get_char(i);
        let cb = b.get_char(i);
        if ca != cb {
            proof {
                lemma_chars_lt_common_prefix(a@, b@, i as int);
                assert(a@.skip(i as int)[0] == a@[i as int]);
                assert(b@.skip(i as int)[0] == b@[i as int]);
                assert(a@[i as int] != b@[i as int]);
            }
            if ca < cb {
                return core::cmp::Ordering::Less;
            } else {
                return core::cmp::Ordering::Greater;
            }
        }
        i += 1;
    }
    proof {
        lemma_chars_lt_common_prefix(a@, b@, min as int);
    }
    if alen == blen {
        proof {
            assert(a@ =~= b@);
        }
        core::cmp::Ordering::Equal
    } else if alen < blen {
        proof {
            assert(chars_lt(a@.skip(min as int), b@.skip(min as int)));
            assert(a@.len() != b@.len());
        }
        core::cmp::Ordering::Less
    } else {
        proof {
            assert(!chars_lt(a@.skip(min as int), b@.skip(min as int)));
            assert(a@.len() != b@.len());
        }
        core::cmp::Ordering::Greater
    }
}

/// Per-backend load balancing parameters.
#[derive(Debug, Clone, Copy, PartialEq, Eq, Structural, Hash)]
pub struct LoadBalancingParams {
    pub weight: u8,
}

impl DeepView for LoadBalancingParams {
    type V = LoadBalancingParams;

    open spec fn deep_view(&self) -> LoadBalancingParams {
        *self
    }
}

/// A concrete upstream endpoint belonging to a cluster.
#[derive(Debug, Clone, PartialEq, Eq, Hash)]
pub struct Backend {
    pub cluster_id: String,
    pub backend_id: String,
    pub address: SocketAddress,
    pub sticky_id: Option<String>,
    pub load_balancing_parameters: Option<LoadBalancingParams>,
    pub backup: Option<bool>,
}

pub ghost struct BackendView {
    pub cluster_id: Seq<char>,
    pub backend_id: Seq<char>,
    pub address: SocketAddress,
    pub sticky_id: Option<Seq<char>>,
    pub load_balancing_parameters: Option<LoadBalancingParams>,
    pub backup: Option<bool>,
}

impl DeepView for Backend {
    type V = BackendView;

    open spec fn deep_view(&self) -> BackendView {
        BackendView {
            cluster_id: self.cluster_id@,
            backend_id: self.backend_id@,
            address: self.address,
            sticky_id: self.sticky_id.deep_view(),
            load_balancing_parameters: self.load_balancing_parameters,
            backup: self.backup,
        }
    }
}

impl DeepEq for Backend {
    fn deep_eq(&self, other: &Self) -> (r: bool) {
        self.cluster_id == other.cluster_id && self.backend_id == other.backend_id && self.address
            == other.address && opt_string_eq(&self.sticky_id, &other.sticky_id)
            && self.load_balancing_parameters == other.load_balancing_parameters && self.backup
            == other.backup
    }
}

/// The key under which a backend is stored: its cluster and its own id.
#[derive(Debug, Clone, PartialEq, Eq, Hash)]
pub struct BackendKey {
    pub cluster_id: String,
    pub backend_id: String,
}

pub ghost struct BackendKeyView {
    pub cluster_id: Seq<char>,
    pub backend_id: Seq<char>,
}

impl DeepView for BackendKey {
    type V = BackendKeyView;

    open spec fn deep_view(&self) -> BackendKeyView {
        BackendKeyView { cluster_id: self.cluster_id@, backend_id: self.backend_id@ }
    }
}

impl DeepEq for BackendKey {
    fn deep_eq(&self, other: &Self) -> (r: bool) {
        self.cluster_id == other.cluster_id && self.backend_id == other.backend_id
    }
}

/// The key of a backend's view.
pub open spec fn backend_key_of(b: BackendView) -> BackendKeyView {
    BackendKeyView { cluster_id: b.cluster_id, backend_id: b.backend_id }
}

/// Three-way comparison of optional character sequences: absent sorts first.
pub open spec fn spec_opt_chars_cmp(
    a: Option<Seq<char>>,
    b: Option<Seq<char>>,
) -> core::cmp::Ordering {
    match (a, b) {
        (Option::None, Option::None) => core::cmp::Ordering::Equal,
        (Option::None, Option::Some(_)) => core::cmp::Ordering::Less,
        (Option::Some(_), Option::None) => core::cmp::Ordering::Greater,
        (Option::Some(x), Option::Some(y)) => spec_chars_cmp(x, y),
    }
}

/// Three-way comparison of optional load balancing parameters: absent
/// sorts first, then the weight.
pub open spec fn spec_opt_lb_cmp(
    a: Option<LoadBalancingParams>,
    b: Option<LoadBalancingParams>,
) -> core::cmp::Ordering {
    match (a, b) {
        (Option::None, Option::None) => core::cmp::Ordering::Equal,
        (Option::None, Option::Some(_)) => core::cmp::Ordering::Less,
        (Option::Some(_), Option::None) => core::cmp::Ordering::Greater,
        (Option::Some(x), Option::Some(y)) => if x.weight == y.weight {
            core::cmp::Ordering::Equal
        } else if x.weight < y.weight {
            core::cmp::Ordering::Less
        } else {
            core::cmp::Ordering::Greater
        },
    }
}

/// Three-way comparison of optional backup flags: absent sorts first, then
/// `false` before `true`.
pub open spec fn spec_opt_bool_cmp(a: Option<bool>, b: Option<bool>) -> core::cmp::Ordering {
    match (a, b) {
        (Option::None, Option::None) => core::cmp::Ordering::Equal,
        (Option::None, Option::Some(_)) => core::cmp::Ordering::Less,
        (Option::Some(_), Option::None) => core::cmp::Ordering::Greater,
        (Option::Some(x), Option::Some(y)) => if x == y {
            core::cmp::Ordering::Equal
        } else if !x && y {
            core::cmp::Ordering::Less
        } else {
            core::cmp::Ordering::Greater
        },
    }
}

/// Three-way comparison of addresses, IP first and then port.
pub open spec fn spec_addr_cmp(a: SocketAddress, b: SocketAddress) -> core::cmp::Ordering {
    if a == b {
        core::cmp::Ordering::Equal
    } else if crate::net::spec_addr_le(a, b) {
        core::cmp::Ordering::Less
    } else {
        core::cmp::Ordering::Greater
    }
}

/// The order backends are kept in for diff stability: by cluster, backend
/// id, sticky id, load balancing parameters, backup flag and address.
pub open spec fn spec_backend_cmp(a: BackendView, b: BackendView) -> core::cmp::Ordering {
    let c1 = spec_chars_cmp(a.cluster_id, b.cluster_id);
    let c2 = spec_chars_cmp(a.backend_id, b.backend_id);
    let c3 = spec_opt_chars_cmp(a.sticky_id, b.sticky_id);
    let c4 = spec_opt_lb_cmp(a.load_balancing_parameters, b.load_balancing_parameters);
    let c5 = spec_opt_bool_cmp(a.backup, b.backup);
    if c1 != core::cmp::Ordering::Equal {
        c1
    } else if c2 != core::cmp::Ordering::Equal {
        c2
    } else if c3 != core::cmp::Ordering::Equal {
        c3
    } else if c4 != core::cmp::Ordering::Equal {
        c4
    } else if c5 != core::cmp::Ordering::Equal {
        c5
    } else {
        spec_addr_cmp(a.address, b.address)
    }
}

impl Backend {
    /// Compares two backends in the diff-stable order.
    pub fn cmp(&self, o: &Backend) -> (r: core::cmp::Ordering)
        ensures
            r == spec_backend_cmp(self.deep_view(), o.deep_view()),
    {
        let c = str_cmp(self.cluster_id.as_str(), o.cluster_id.as_str());
        if !matches!(c, core::cmp::Ordering::Equal) {
            return c;
        }
        let c = str_cmp(self.backend_id.as_str(), o.backend_id.as_str());
        if !matches!(c, core::cmp::Ordering::Equal) {
            return c;
        }
        let c = match (&self.sticky_id, &o.sticky_id) {
            (Option::None, Option::None) => core::cmp::Ordering::Equal,
            (Option::None, Option::Some(_)) => core::cmp::Ordering::Less,
            (Option::Some(_), Option::None) => core::cmp::Ordering::Greater,
            (Option::Some(x), Option::Some(y)) => str_cmp(x.as_str(), y.as_str()),
        };
        if !matches!(c, core::cmp::Ordering::Equal) {
            return c;
        }
        let c = match (&self.load_balancing_parameters, &o.load_balancing_parameters) {
            (Option::None, Option::None) => core::cmp::Ordering::Equal,
            (Option::None, Option::Some(_)) => core::cmp::Ordering::Less,
            (Option::Some(_), Option::None) => core::cmp::Ordering::Greater,
            (Option::Some(x), Option::Some(y)) => {
                if x.weight == y.weight {
                    core::cmp::Ordering::Equal
                } else if x.weight < y.weight {
                    core::cmp::Ordering::Less
                } else {
                    core::cmp::Ordering::Greater
                }
            },
        };
        if !matches!(c, core::cmp::Ordering::Equal) {
            return c;
        }
        let c = match (&self.backup, &o.backup) {
            (Option::None, Option::None) => core::cmp::Ordering::Equal,
            (Option::None, Option::Some(_)) => core::cmp::Ordering::Less,
            (Option::Some(_), Option::None) => core::cmp::Ordering::Greater,
            (Option::Some(x), Option::Some(y)) => {
                if *x == *y {
                    core::cmp::Ordering::Equal
                } else if !*x && *y {
                    core::cmp::Ordering::Less
                } else {
                    core::cmp::Ordering::Greater
                }
            },
        };
        if !matches!(c, core::cmp::Ordering::Equal) {
            return c;
        }
        crate::net::socketaddr_cmp(&self.address, &o.address)
    }

    /// Clones the backend, keeping the deep view.
    pub fn duplicate(&self) -> (r: Backend)
        ensures
            r.deep_view() == self.deep_view(),
    {
        Backend {
            cluster_id: self.cluster_id.clone(),
            backend_id: self.backend_id.clone(),
            address: self.address,
            sticky_id: clone_opt_string(&self.sticky_id),
            load_balancing_parameters: self.load_balancing_parameters,
            backup: self.backup,
        }
    }

    /// The key under which this backend is stored.
    pub fn key(&self) -> (r: BackendKey)
        ensures
            r.deep_view() == backend_key_of(self.deep_view()),
    {
        BackendKey {
            cluster_id: self.cluster_id.clone(),
            backend_id: self.backend_id.clone(),
        }
    }
}

} // verus!

verus! {

/// A TLS protocol version a listener may accept.
#[derive(Debug, Clone, Copy, PartialEq, Eq, Structural, Hash)]
pub enum TlsVersion {
    SSLv2,
    SSLv3,
    TLSv1_0,
    TLSv1_1,
    TLSv1_2,
    TLSv1_3,
}

impl DeepView for TlsVersion {
    type V = TlsVersion;

    open spec fn deep_view(&self) -> TlsVersion {
        *self
    }
}

/// Clones a vector of TLS versions.
pub fn clone_versions(v: &Vec<TlsVersion>) -> (r: Vec<TlsVersion>)
    ensures
        r@ == v@,
{
    let mut r: Vec<TlsVersion> = Vec::new();
    let mut i: usize = 0;
    while i < v.len()
        invariant
            0 <= i <= v.len(),
            r.len() == i,
            forall|j: int| 0 <= j < i ==> r@[j] == v@[j],
        decreases v.len() - i,
    {
        r.push(v[i]);
        i += 1;
    }
    proof {
        assert(r@ =~= v@);
    }
    r
}

/// Equality of TLS version vectors.
pub fn versions_eq(a: &Vec<TlsVersion>, b: &Vec<TlsVersion>) -> (r: bool)
    ensures
        r <==> a@ == b@,
{
    if a.len() != b.len() {
        return false;
    }
    let mut i: usize = 0;
    while i < a.len()
        invariant
            0 <= i <= a.len(),
            a.len() == b.len(),
            forall|j: int| 0 <= j < i ==> a@[j] == b@[j],
        decreases a.len() - i,
    {
        if !(a[i] == b[i]) {
            return false;
        }
        i += 1;
    }
    proof {
        assert(a@ =~= b@);
    }
    true
}

/// Details of an HTTP listener, sent by the main process to the worker.
#[derive(Debug, Clone, PartialEq, Eq, Hash)]
pub struct HttpListenerConfig {
    pub address: SocketAddress,
    pub public_address: Option<SocketAddress>,
    pub answer_404: String,
    pub answer_503: String,
    pub expect_proxy: bool,
    /// identifies sticky sessions
    pub sticky_name: String,
    /// client inactive time
    pub front_timeout: u32,
    /// backend server inactive time
    pub back_timeout: u32,
    /// time to connect to the backend
    pub connect_timeout: u32,
    /// max time to send a complete request
    pub request_timeout: u32,
}

pub ghost struct HttpListenerConfigView {
    pub address: SocketAddress,
    pub public_address: Option<SocketAddress>,
    pub answer_404: Seq<char>,
    pub answer_503: Seq<char>,
    pub expect_proxy: bool,
    pub sticky_name: Seq<char>,
    pub front_timeout: u32,
    pub back_timeout: u32,
    pub connect_timeout: u32,
    pub request_timeout: u32,
}

impl DeepView for HttpListenerConfig {
    type V = HttpListenerConfigView;

    open spec fn deep_view(&self) -> HttpListenerConfigView {
        HttpListenerConfigView {
            address: self.address,
            public_address: self.public_address,
            answer_404: self.answer_404@,
            answer_503: self.answer_503@,
            expect_proxy: self.expect_proxy,
            sticky_name: self.sticky_name@,
            front_timeout: self.front_timeout,
            back_timeout: self.back_timeout,
            connect_timeout: self.connect_timeout,
            request_timeout: self.request_timeout,
        }
    }
}

impl DeepEq for HttpListenerConfig {
    fn deep_eq(&self, other: &Self) -> (r: bool) {
        self.address == other.address && self.public_address == other.public_address
            && self.answer_404 == other.answer_404 && self.answer_503 == other.answer_503
            && self.expect_proxy == other.expect_proxy && self.sticky_name == other.sticky_name
            && self.front_timeout == other.front_timeout && self.back_timeout == other.back_timeout
            && self.connect_timeout == other.connect_timeout && self.request_timeout
            == other.request_timeout
    }
}

impl HttpListenerConfig {
    /// Clones the configuration, keeping the deep view.
    pub fn duplicate(&self) -> (r: HttpListenerConfig)
        ensures
            r.deep_view() == self.deep_view(),
    {
        HttpListenerConfig {
            address: self.address,
            public_address: self.public_address,
            answer_404: self.answer_404.clone(),
            answer_503: self.answer_503.clone(),
            expect_proxy: self.expect_proxy,
            sticky_name: self.sticky_name.clone(),
            front_timeout: self.front_timeout,
            back_timeout: self.back_timeout,
            connect_timeout: self.connect_timeout,
            request_timeout: self.request_timeout,
        }
    }
}

impl Default for HttpListenerConfig {
    /// The stock HTTP listener: loopback port 8080, canned 404 and 503
    /// answers, and the usual timeouts.
    fn default() -> (r: HttpListenerConfig)
        ensures
            r.address == (SocketAddress { ip: IpAddress::V4(0x7f000001), port: 8080 }),
            r.public_address is None,
            r.answer_404@
                == "HTTP/1.1 404 Not Found\r\nCache-Control: no-cache\r\nConnection: close\r\n\r\n"@,
            r.answer_503@
                == "HTTP/1.1 503 Service Unavailable\r\nCache-Control: no-cache\r\nConnection: close\r\n\r\n"@,
            !r.expect_proxy,
            r.sticky_name@ == "SOZUBALANCEID"@,
            r.front_timeout == 60,
            r.back_timeout == 30,
            r.connect_timeout == 3,
            r.request_timeout == 10,
    {
        HttpListenerConfig {
            address: SocketAddress { ip: IpAddress::V4(0x7f000001), port: 8080 },
            public_address: Option::None,
            answer_404: String::from_str(
                "HTTP/1.1 404 Not Found\r\nCache-Control: no-cache\r\nConnection: close\r\n\r\n",
            ),
            answer_503: String::from_str(
                "HTTP/1.1 503 Service Unavailable\r\nCache-Control: no-cache\r\nConnection: close\r\n\r\n",
            ),
            expect_proxy: false,
            sticky_name: String::from_str("SOZUBALANCEID"),
            front_timeout: 60,
            back_timeout: 30,
            connect_timeout: 3,
            request_timeout: 10,
        }
    }
}

/// Details of an HTTPS listener, sent by the main process to the worker.
#[derive(Debug, Clone, PartialEq, Eq, Hash)]
pub struct HttpsListenerConfig {
    pub address: SocketAddress,
    pub public_address: Option<SocketAddress>,
    pub answer_404: String,
    pub answer_503: String,
    pub versions: Vec<TlsVersion>,
    pub cipher_list: Vec<String>,
    pub cipher_suites: Vec<String>,
    pub signature_algorithms: Vec<String>,
    pub groups_list: Vec<String>,
    pub expect_proxy: bool,
    pub sticky_name: String,
    pub certificate: Option<String>,
    pub certificate_chain: Vec<String>,
    pub key: Option<String>,
    pub front_timeout: u32,
    pub back_timeout: u32,
    pub connect_timeout: u32,
    /// max time to send a complete request
    pub request_timeout: u32,
}

pub ghost struct HttpsListenerConfigView {
    pub address: SocketAddress,
    pub public_address: Option<SocketAddress>,
    pub answer_404: Seq<char>,
    pub answer_503: Seq<char>,
    pub versions: Seq<TlsVersion>,
    pub cipher_list: Seq<Seq<char>>,
    pub cipher_suites: Seq<Seq<char>>,
    pub signature_algorithms: Seq<Seq<char>>,
    pub groups_list: Seq<Seq<char>>,
    pub expect_proxy: bool,
    pub sticky_name: Seq<char>,
    pub certificate: Option<Seq<char>>,
    pub certificate_chain: Seq<Seq<char>>,
    pub key: Option<Seq<char>>,
    pub front_timeout: u32,
    pub back_timeout: u32,
    pub connect_timeout: u32,
    pub request_timeout: u32,
}

impl DeepView for HttpsListenerConfig {
    type V = HttpsListenerConfigView;

    open spec fn deep_view(&self) -> HttpsListenerConfigView {
        HttpsListenerConfigView {
            address: self.address,
            public_address: self.public_address,
            answer_404: self.answer_404@,
            answer_503: self.answer_503@,
            versions: self.versions@,
            cipher_list: self.cipher_list.deep_view(),
            cipher_suites: self.cipher_suites.deep_view(),
            signature_algorithms: self.signature_algorithms.deep_view(),
            groups_list: self.groups_list.deep_view(),
            expect_proxy: self.expect_proxy,
            sticky_name: self.sticky_name@,
            certificate: self.certificate.deep_view(),
            certificate_chain: self.certificate_chain.deep_view(),
            key: self.key.deep_view(),
            front_timeout: self.front_timeout,
            back_timeout: self.back_timeout,
            connect_timeout: self.connect_timeout,
            request_timeout: self.request_timeout,
        }
    }
}

impl DeepEq for HttpsListenerConfig {
    fn deep_eq(&self, other: &Self) -> (r: bool) {
        self.address == other.address && self.public_address == other.public_address
            && self.answer_404 == other.answer_404 && self.answer_503 == other.answer_503
            && versions_eq(&self.versions, &other.versions) && vec_string_eq(
            &self.cipher_list,
            &other.cipher_list,
        ) && vec_string_eq(&self.cipher_suites, &other.cipher_suites) && vec_string_eq(
            &self.signature_algorithms,
            &other.signature_algorithms,
        ) && vec_string_eq(&self.groups_list, &other.groups_list) && self.expect_proxy
            == other.expect_proxy && self.sticky_name == other.sticky_name && opt_string_eq(
            &self.certificate,
            &other.certificate,
        ) && vec_string_eq(&self.certificate_chain, &other.certificate_chain) && opt_string_eq(
            &self.key,
            &other.key,
        ) && self.front_timeout == other.front_timeout && self.back_timeout == other.back_timeout
            && self.connect_timeout == other.connect_timeout && self.request_timeout
            == other.request_timeout
    }
}

impl HttpsListenerConfig {
    /// Clones the configuration, keeping the deep view.
    pub fn duplicate(&self) -> (r: HttpsListenerConfig)
        ensures
            r.deep_view() == self.deep_view(),
    {
        HttpsListenerConfig {
            address: self.address,
            public_address: self.public_address,
            answer_404: self.answer_404.clone(),
            answer_503: self.answer_503.clone(),
            versions: clone_versions(&self.versions),
            cipher_list: clone_vec_string(&self.cipher_list),
            cipher_suites: clone_vec_string(&self.cipher_suites),
            signature_algorithms: clone_vec_string(&self.signature_algorithms),
            groups_list: clone_vec_string(&self.groups_list),
            expect_proxy: self.expect_proxy,
            sticky_name: self.sticky_name.clone(),
            certificate: clone_opt_string(&self.certificate),
            certificate_chain: clone_vec_string(&self.certificate_chain),
            key: clone_opt_string(&self.key),
            front_timeout: self.front_timeout,
            back_timeout: self.back_timeout,
            connect_timeout: self.connect_timeout,
            request_timeout: self.request_timeout,
        }
    }
}

/// Details of a TCP listener, sent by the main process to the worker.
#[derive(Debug, PartialEq, Eq, Hash)]
pub struct TcpListenerConfig {
    pub address: SocketAddress,
    pub public_address: Option<SocketAddress>,
    pub expect_proxy: bool,
    pub front_timeout: u32,
    pub back_timeout: u32,
    pub connect_timeout: u32,
}

impl DeepView for TcpListenerConfig {
    type V = TcpListenerConfig;

    open spec fn deep_view(&self) -> TcpListenerConfig {
        *self
    }
}

impl DeepEq for TcpListenerConfig {
    fn deep_eq(&self, other: &Self) -> (r: bool) {
        self.address == other.address && self.public_address == other.public_address
            && self.expect_proxy == other.expect_proxy && self.front_timeout == other.front_timeout
            && self.back_timeout == other.back_timeout && self.connect_timeout
            == other.connect_timeout
    }
}

impl Clone for TcpListenerConfig {
    fn clone(&self) -> (r: Self)
        ensures
            r == *self,
    {
        TcpListenerConfig {
            address: self.address,
            public_address: self.public_address,
            expect_proxy: self.expect_proxy,
            front_timeout: self.front_timeout,
            back_timeout: self.back_timeout,
            connect_timeout: self.connect_timeout,
        }
    }
}

impl Copy for TcpListenerConfig {

}

/// Equality of byte vectors.
pub fn bytes_eq(a: &Vec<u8>, b: &Vec<u8>) -> (r: bool)
    ensures
        r <==> a@ == b@,
{
    if a.len() != b.len() {
        return false;
    }
    let mut i: usize = 0;
    while i < a.len()
        invariant
            0 <= i <= a.len(),
            a.len() == b.len(),
            forall|j: int| 0 <= j < i ==> a@[j] == b@[j],
        decreases a.len() - i,
    {
        if a[i] != b[i] {
            return false;
        }
        i += 1;
    }
    proof {
        assert(a@ =~= b@);
    }
    true
}

/// Clones a byte vector.
pub fn clone_bytes(v: &Vec<u8>) -> (r: Vec<u8>)
    ensures
        r@ == v@,
{
    let mut r: Vec<u8> = Vec::new();
    let mut i: usize = 0;
    while i < v.len()
        invariant
            0 <= i <= v.len(),
            r.len() == i,
            forall|j: int| 0 <= j < i ==> r@[j] == v@[j],
        decreases v.len() - i,
    {
        r.push(v[i]);
        i += 1;
    }
    proof {
        assert(r@ =~= v@);
    }
    r
}

/// A certificate as stored by the supervisor: its domain names and its PEM
/// chain, addressable by listener address and fingerprint.
#[derive(Debug, Clone, PartialEq, Eq, Hash)]
pub struct Certificate {
    pub names: Vec<String>,
    pub chain: Vec<String>,
}

pub ghost struct CertificateView {
    pub names: Seq<Seq<char>>,
    pub chain: Seq<Seq<char>>,
}

impl DeepView for Certificate {
    type V = CertificateView;

    open spec fn deep_view(&self) -> CertificateView {
        CertificateView { names: self.names.deep_view(), chain: self.chain.deep_view() }
    }
}

impl DeepEq for Certificate {
    fn deep_eq(&self, other: &Self) -> (r: bool) {
        vec_string_eq(&self.names, &other.names) && vec_string_eq(&self.chain, &other.chain)
    }
}

impl Certificate {
    /// Clones the certificate, keeping the deep view.
    pub fn duplicate(&self) -> (r: Certificate)
        ensures
            r.deep_view() == self.deep_view(),
    {
        Certificate {
            names: clone_vec_string(&self.names),
            chain: clone_vec_string(&self.chain),
        }
    }
}

/// The key under which a certificate is stored.
#[derive(Debug, Clone, PartialEq, Eq, Hash)]
pub struct CertificateKey {
    pub address: SocketAddress,
    pub fingerprint: Vec<u8>,
}

pub ghost struct CertificateKeyView {
    pub address: SocketAddress,
    pub fingerprint: Seq<u8>,
}

impl DeepView for CertificateKey {
    type V = CertificateKeyView;

    open spec fn deep_view(&self) -> CertificateKeyView {
        CertificateKeyView { address: self.address, fingerprint: self.fingerprint@ }
    }
}

impl DeepEq for CertificateKey {
    fn deep_eq(&self, other: &Self) -> (r: bool) {
        self.address == other.address && bytes_eq(&self.fingerprint, &other.fingerprint)
    }
}

impl CertificateKey {
    /// Clones the key, keeping the deep view.
    pub fn duplicate(&self) -> (r: CertificateKey)
        ensures
            r.deep_view() == self.deep_view(),
    {
        CertificateKey { address: self.address, fingerprint: clone_bytes(&self.fingerprint) }
    }
}

/// Runstate of a worker.
#[derive(Debug, Clone, Copy, PartialEq, Eq, Structural, Hash)]
pub enum RunState {
    Running,
    Stopping,
    Stopped,
    NotAnswering,
}

impl DeepView for RunState {
    type V = RunState;

    open spec fn deep_view(&self) -> RunState {
        *self
    }
}

impl RunState {
    /// The run state's name, as shown to operators.
    pub fn display_string(&self) -> (r: String)
        ensures
            (*self == RunState::Running ==> r@ == "Running"@) && (*self == RunState::Stopping
                ==> r@ == "Stopping"@) && (*self == RunState::Stopped ==> r@ == "Stopped"@) && (
            *self == RunState::NotAnswering ==> r@ == "NotAnswering"@),
    {
        match self {
            RunState::Running => String::from_str("Running"),
            RunState::Stopping => String::from_str("Stopping"),
            RunState::Stopped => String::from_str("Stopped"),
            RunState::NotAnswering => String::from_str("NotAnswering"),
        }
    }
}

/// Identity and run state of one worker, as listed in status responses.
#[derive(Debug, Clone, Copy, PartialEq, Eq, Structural, Hash)]
pub struct WorkerInfo {
    pub id: u32,
    pub pid: i32,
    pub run_state: RunState,
}

impl DeepView for WorkerInfo {
    type V = WorkerInfo;

    open spec fn deep_view(&self) -> WorkerInfo {
        *self
    }
}

} // verus!

verus! {

/// The stock TLS cipher list offered to clients, newest first.
pub open spec fn default_cipher_list_view() -> Seq<Seq<char>> {
    seq![
        "TLS13_CHACHA20_POLY1305_SHA256"@,
        "TLS13_AES_256_GCM_SHA384"@,
        "TLS13_AES_128_GCM_SHA256"@,
        "TLS_ECDHE_ECDSA_WITH_CHACHA20_POLY1305_SHA256"@,
        "TLS_ECDHE_RSA_WITH_CHACHA20_POLY1305_SHA256"@,
        "TLS_ECDHE_ECDSA_WITH_AES_256_GCM_SHA384"@,
        "TLS_ECDHE_RSA_WITH_AES_256_GCM_SHA384"@,
        "TLS_ECDHE_ECDSA_WITH_AES_128_GCM_SHA256"@,
        "TLS_ECDHE_RSA_WITH_AES_128_GCM_SHA256"@,
    ]
}

fn default_cipher_list() -> (r: Vec<String>)
    ensures
        r.deep_view() == default_cipher_list_view(),
{
    let mut r: Vec<String> = Vec::new();
    r.push(String::from_str("TLS13_CHACHA20_POLY1305_SHA256"));
    r.push(String::from_str("TLS13_AES_256_GCM_SHA384"));
    r.push(String::from_str("TLS13_AES_128_GCM_SHA256"));
    r.push(String::from_str("TLS_ECDHE_ECDSA_WITH_CHACHA20_POLY1305_SHA256"));
    r.push(String::from_str("TLS_ECDHE_RSA_WITH_CHACHA20_POLY1305_SHA256"));
    r.push(String::from_str("TLS_ECDHE_ECDSA_WITH_AES_256_GCM_SHA384"));
    r.push(String::from_str("TLS_ECDHE_RSA_WITH_AES_256_GCM_SHA384"));
    r.push(String::from_str("TLS_ECDHE_ECDSA_WITH_AES_128_GCM_SHA256"));
    r.push(String::from_str("TLS_ECDHE_RSA_WITH_AES_128_GCM_SHA256"));
    proof {
        assert(r.deep_view() =~= default_cipher_list_view());
    }
    r
}

/// The stock TLS 1.3 cipher suites.
pub open spec fn default_cipher_suites_view() -> Seq<Seq<char>> {
    seq![
        "TLS_AES_256_GCM_SHA384"@,
        "TLS_AES_128_GCM_SHA256"@,
        "TLS_CHACHA20_POLY1305_SHA256"@,
    ]
}

fn default_cipher_suites() -> (r: Vec<String>)
    ensures
        r.deep_view() == default_cipher_suites_view(),
{
    let mut r: Vec<String> = Vec::new();
    r.push(String::from_str("TLS_AES_256_GCM_SHA384"));
    r.push(String::from_str("TLS_AES_128_GCM_SHA256"));
    r.push(String::from_str("TLS_CHACHA20_POLY1305_SHA256"));
    proof {
        assert(r.deep_view() =~= default_cipher_suites_view());
    }
    r
}

/// The stock signature algorithms.
pub open spec fn default_signature_algorithms_view() -> Seq<Seq<char>> {
    seq![
        "ECDSA+SHA256"@,
        "ECDSA+SHA384"@,
        "ECDSA+SHA512"@,
        "RSA+SHA256"@,
        "RSA+SHA384"@,
        "RSA+SHA512"@,
    ]
}

fn default_signature_algorithms() -> (r: Vec<String>)
    ensures
        r.deep_view() == default_signature_algorithms_view(),
{
    let mut r: Vec<String> = Vec::new();
    r.push(String::from_str("ECDSA+SHA256"));
    r.push(String::from_str("ECDSA+SHA384"));
    r.push(String::from_str("ECDSA+SHA512"));
    r.push(String::from_str("RSA+SHA256"));
    r.push(String::from_str("RSA+SHA384"));
    r.push(String::from_str("RSA+SHA512"));
    proof {
        assert(r.deep_view() =~= default_signature_algorithms_view());
    }
    r
}

/// The stock key exchange groups.
pub open spec fn default_groups_list_view() -> Seq<Seq<char>> {
    seq!["P-521"@, "P-384"@, "P-256"@, "x25519"@]
}

fn default_groups_list() -> (r: Vec<String>)
    ensures
        r.deep_view() == default_groups_list_view(),
{
    let mut r: Vec<String> = Vec::new();
    r.push(String::from_str("P-521"));
    r.push(String::from_str("P-384"));
    r.push(String::from_str("P-256"));
    r.push(String::from_str("x25519"));
    proof {
        assert(r.deep_view() =~= default_groups_list_view());
    }
    r
}

impl Default for HttpsListenerConfig {
    /// The stock HTTPS listener: loopback port 8443, canned 404 and 503
    /// answers, TLS 1.2 only, the stock cipher and group lists, no
    /// certificate material, and the usual timeouts.
    fn default() -> (r: HttpsListenerConfig)
        ensures
            r.address == (SocketAddress { ip: IpAddress::V4(0x7f000001), port: 8443 }),
            r.public_address is None,
            r.answer_404@
                == "HTTP/1.1 404 Not Found\r\nCache-Control: no-cache\r\nConnection: close\r\n\r\n"@,
            r.answer_503@
                == "HTTP/1.1 503 Service Unavailable\r\nCache-Control: no-cache\r\nConnection: close\r\n\r\n"@,
            r.versions@ == seq![TlsVersion::TLSv1_2],
            r.cipher_list.deep_view() == default_cipher_list_view(),
            r.cipher_suites.deep_view() == default_cipher_suites_view(),
            r.signature_algorithms.deep_view() == default_signature_algorithms_view(),
            r.groups_list.deep_view() == default_groups_list_view(),
            !r.expect_proxy,
            r.sticky_name@ == "SOZUBALANCEID"@,
            r.certificate is None,
            r.certificate_chain.deep_view() == Seq::<Seq<char>>::empty(),
            r.key is None,
            r.front_timeout == 60,
            r.back_timeout == 30,
            r.connect_timeout == 3,
            r.request_timeout == 10,
    {
        let mut versions: Vec<TlsVersion> = Vec::new();
        versions.push(TlsVersion::TLSv1_2);
        proof {
            assert(versions@ =~= seq![TlsVersion::TLSv1_2]);
        }
        let chain: Vec<String> = Vec::new();
        proof {
            assert(chain.deep_view() =~= Seq::<Seq<char>>::empty());
        }
        HttpsListenerConfig {
            address: SocketAddress { ip: IpAddress::V4(0x7f000001), port: 8443 },
            public_address: Option::None,
            answer_404: String::from_str(
                "HTTP/1.1 404 Not Found\r\nCache-Control: no-cache\r\nConnection: close\r\n\r\n",
            ),
            answer_503: String::from_str(
                "HTTP/1.1 503 Service Unavailable\r\nCache-Control: no-cache\r\nConnection: close\r\n\r\n",
            ),
            versions,
            cipher_list: default_cipher_list(),
            cipher_suites: default_cipher_suites(),
            signature_algorithms: default_signature_algorithms(),
            groups_list: default_groups_list(),
            expect_proxy: false,
            sticky_name: String::from_str("SOZUBALANCEID"),
            certificate: Option::None,
            certificate_chain: chain,
            key: Option::None,
            front_timeout: 60,
            back_timeout: 30,
            connect_timeout: 3,
            request_timeout: 10,
        }
    }
}

} // verus!

verus! {

/// Latency percentiles of a sampled distribution.
#[derive(Debug, Clone, Copy, PartialEq, Eq, Structural, Hash)]
pub struct Percentiles {
    pub samples: u64,
    pub p_50: u64,
    pub p_90: u64,
    pub p_99: u64,
    pub p_99_9: u64,
    pub p_99_99: u64,
    pub p_99_999: u64,
    pub p_100: u64,
}

impl Default for Percentiles {
    /// All counters at zero.
    fn default() -> (r: Percentiles)
        ensures
            r == (Percentiles {
                samples: 0,
                p_50: 0,
                p_90: 0,
                p_99: 0,
                p_99_9: 0,
                p_99_99: 0,
                p_99_999: 0,
                p_100: 0,
            }),
    {
        Percentiles {
            samples: 0,
            p_50: 0,
            p_90: 0,
            p_99: 0,
            p_99_9: 0,
            p_99_99: 0,
            p_99_999: 0,
            p_100: 0,
        }
    }
}

} // verus!

verus! {

/// The decimal digits of a number, most significant first.
pub open spec fn spec_decimal(n: nat) -> Seq<char>
    decreases n,
{
    let digit = seq![(48 + (n % 10)) as char];
    if n < 10 {
        digit
    } else {
        spec_decimal(n / 10) + digit
    }
}

/// Writes a number in decimal.
pub fn u32_to_string(n: u32) -> (s: String)
    ensures
        s@ == spec_decimal(n as nat),
    decreases n,
{
    let digit: &str = match n % 10 {
        0 => "0",
        1 => "1",
        2 => "2",
        3 => "3",
        4 => "4",
        5 => "5",
        6 => "6",
        7 => "7",
        8 => "8",
        _ => "9",
    };
    proof {
        reveal_strlit("0");
        reveal_strlit("1");
        reveal_strlit("2");
        reveal_strlit("3");
        reveal_strlit("4");
        reveal_strlit("5");
        reveal_strlit("6");
        reveal_strlit("7");
        reveal_strlit("8");
        reveal_strlit("9");
        assert(digit@ =~= seq![(48 + (n as nat % 10)) as char]);
    }
    if n < 10 {
        let s = String::from_str(digit);
        proof {
            assert(s@ =~= spec_decimal(n as nat));
        }
        s
    } else {
        let mut s = u32_to_string(n / 10);
        s.append(digit);
        proof {
            assert(s@ =~= spec_decimal(n as nat));
        }
        s
    }
}

} // verus!

verus! {

impl Route {
    /// The route as an operator reads it: `deny`, or the cluster id.
    pub fn display_string(&self) -> (r: String)
        ensures
            match self {
                Route::Deny => r@ == "deny"@,
                Route::ClusterId(id) => r@ == id@,
            },
    {
        match self {
            Route::Deny => String::from_str("deny"),
            Route::ClusterId(id) => id.clone(),
        }
    }
}

impl PathRule {
    /// The rule as an operator reads it: its kind and its pattern in
    /// quotes.
    pub fn display_string(&self) -> (r: String)
        ensures
            match self {
                PathRule::Prefix(s) => r@ == "prefix '"@ + s@ + "'"@,
                PathRule::Regex(s) => r@ == "regexp '"@ + s@ + "'"@,
                PathRule::Equals(s) => r@ == "equals '"@ + s@ + "'"@,
            },
    {
        let mut r = match self {
            PathRule::Prefix(_) => String::from_str("prefix '"),
            PathRule::Regex(_) => String::from_str("regexp '"),
            PathRule::Equals(_) => String::from_str("equals '"),
        };
        match self {
            PathRule::Prefix(s) => r.append(s.as_str()),
            PathRule::Regex(s) => r.append(s.as_str()),
            PathRule::Equals(s) => r.append(s.as_str()),
        }
        r.append("'");
        r
    }
}

} // verus!
