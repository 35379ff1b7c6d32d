//! The diff between two configuration states: the ordered command
//! sequence that, applied to the first, produces the second.  Removals
//! come before additions; listeners are added before clusters and
//! clusters before frontends and backends.

use vstd::prelude::*;

use crate::net::SocketAddress;
use crate::state::{
    spec_apply, spec_apply_all, lemma_apply_all_snoc, ConfigCommand, ConfigCommandView,
    ConfigState, ConfigStateView, ListenerConfig, ListenerConfigView, ListenerEntry,
    ListenerEntryView, spec_listener_address, consistent,
};
use crate::table::{assoc_map, assoc_unique, lemma_assoc_contains, lemma_assoc_index, Table};
use crate::types::{
    backend_key_of, route_key_of, Backend, BackendKey, BackendKeyView, BackendView, Certificate,
    CertificateKey, CertificateKeyView, CertificateView, Cluster, ClusterView, DeepEq,
    HttpFrontend, HttpFrontendView, RouteKey, RouteKeyView, TcpFrontend, TcpFrontendView,
};

verus! {

/// Folding a concatenation folds the two halves one after the other.
pub proof fn lemma_apply_all_append(
    s: ConfigStateView,
    c1: Seq<ConfigCommandView>,
    c2: Seq<ConfigCommandView>,
)
    ensures
        spec_apply_all(s, c1 + c2) == spec_apply_all(spec_apply_all(s, c1), c2),
    decreases c2.len(),
{
    if c2.len() == 0 {
        assert(c1 + c2 =~= c1);
    } else {
        let d = c2.drop_last();
        let x = c2.last();
        assert(c1 + c2 =~= (c1 + d).push(x));
        lemma_apply_all_snoc(s, c1 + d, x);
        lemma_apply_all_append(s, c1, d);
        lemma_apply_all_snoc(spec_apply_all(s, c1), d, x);
        assert(c2 =~= d.push(x));
    }
}

/// A single command folds as one application.
pub proof fn lemma_apply_all_one(s: ConfigStateView, c: ConfigCommandView)
    ensures
        spec_apply_all(s, seq![c]) == spec_apply(s, c).0,
{
    assert(seq![c] =~= Seq::<ConfigCommandView>::empty().push(c));
    lemma_apply_all_snoc(s, Seq::<ConfigCommandView>::empty(), c);
}

/// The commands contributed by a list of store entries, each entry giving
/// a short bundle, in entry order.
pub open spec fn concat_bundles<KV, VV>(
    ents: Seq<(KV, VV)>,
    f: spec_fn(KV, VV) -> Seq<ConfigCommandView>,
) -> Seq<ConfigCommandView>
    decreases ents.len(),
{
    if ents.len() == 0 {
        Seq::empty()
    } else {
        concat_bundles(ents.drop_last(), f) + f(ents.last().0, ents.last().1)
    }
}

/// When every bundle is empty the concatenation is empty.
pub proof fn lemma_concat_bundles_empty<KV, VV>(
    ents: Seq<(KV, VV)>,
    f: spec_fn(KV, VV) -> Seq<ConfigCommandView>,
)
    requires
        forall|i: int| 0 <= i < ents.len() ==> (#[trigger] f(ents[i].0, ents[i].1)).len() == 0,
    ensures
        concat_bundles(ents, f).len() == 0,
    decreases ents.len(),
{
    if ents.len() > 0 {
        let d = ents.drop_last();
        assert forall|i: int| 0 <= i < d.len() implies (#[trigger] f(d[i].0, d[i].1)).len()
            == 0 by {
            assert(d[i] == ents[i]);
        }
        lemma_concat_bundles_empty(d, f);
        assert(f(ents.last().0, ents.last().1).len() == 0);
        assert(ents[ents.len() - 1] == ents.last());
    }
}

/// A key named by some entry.
pub open spec fn ents_has_key<KV, VV>(ents: Seq<(KV, VV)>, k: KV) -> bool {
    exists|i: int| 0 <= i < ents.len() && ents[i].0 == k
}

/// The store map after each entry's effect, folded in entry order.
pub open spec fn fold_effects<KV, VV>(
    m: Map<KV, VV>,
    ents: Seq<(KV, VV)>,
    eff: spec_fn(Map<KV, VV>, KV, VV) -> Map<KV, VV>,
) -> Map<KV, VV>
    decreases ents.len(),
{
    if ents.len() == 0 {
        m
    } else {
        eff(fold_effects(m, ents.drop_last(), eff), ents.last().0, ents.last().1)
    }
}

/// Presence and value of a key agree between two maps.
pub open spec fn same_at<KV, VV>(m1: Map<KV, VV>, m2: Map<KV, VV>, k: KV) -> bool {
    (m1.contains_key(k) <==> m2.contains_key(k)) && (m1.contains_key(k) ==> m1[k] == m2[k])
}

/// The workhorse of the diff proof.  A store of the state is described by
/// a getter and a setter; each entry of a worklist contributes a command
/// bundle whose effect on the store is `eff` at the entry's key, valid in
/// any state whose store agrees at that key with a context `ctx`.  Folding
/// all the bundles then applies all the effects, and keys outside the
/// worklist keep their original binding.
#[verifier::rlimit(30)]
pub proof fn lemma_store_bundles<KV, VV>(
    s0: ConfigStateView,
    ents: Seq<(KV, VV)>,
    f: spec_fn(KV, VV) -> Seq<ConfigCommandView>,
    eff: spec_fn(Map<KV, VV>, KV, VV) -> Map<KV, VV>,
    get: spec_fn(ConfigStateView) -> Map<KV, VV>,
    set: spec_fn(ConfigStateView, Map<KV, VV>) -> ConfigStateView,
    ctx: spec_fn(Map<KV, VV>, KV, VV) -> bool,
)
    requires
        forall|s: ConfigStateView, m: Map<KV, VV>| #[trigger] get(set(s, m)) == m,
        forall|s: ConfigStateView, m1: Map<KV, VV>, m2: Map<KV, VV>| #[trigger] set(set(s, m1), m2)
            == set(s, m2),
        forall|s: ConfigStateView| #[trigger] set(s, get(s)) == s,
        assoc_unique(ents),
        forall|s: ConfigStateView, i: int|
            0 <= i < ents.len() && ctx(get(s), ents[i].0, ents[i].1) ==> #[trigger] spec_apply_all(
                s,
                f(ents[i].0, ents[i].1),
            ) == set(s, eff(get(s), ents[i].0, ents[i].1)),
        forall|i: int| 0 <= i < ents.len() ==> #[trigger] ctx(get(s0), ents[i].0, ents[i].1),
        forall|m1: Map<KV, VV>, m2: Map<KV, VV>, k: KV, v: VV|
            same_at(m1, m2, k) && #[trigger] ctx(m1, k, v) ==> #[trigger] ctx(m2, k, v),
        forall|m: Map<KV, VV>, k: KV, v: VV, k2: KV|
            k2 != k ==> #[trigger] same_at(eff(m, k, v), m, k2),
        forall|m1: Map<KV, VV>, m2: Map<KV, VV>, k: KV, v: VV|
            same_at(m1, m2, k) ==> #[trigger] same_at(eff(m1, k, v), eff(m2, k, v), k),
    ensures
        spec_apply_all(s0, concat_bundles(ents, f)) == set(s0, fold_effects(get(s0), ents, eff)),
        forall|k2: KV|
            !ents_has_key(ents, k2) ==> same_at(
                #[trigger] fold_effects(get(s0), ents, eff),
                get(s0),
                k2,
            ),
        forall|i: int|
            0 <= i < ents.len() ==> same_at(
                fold_effects(get(s0), ents, eff),
                eff(get(s0), #[trigger] ents[i].0, ents[i].1),
                ents[i].0,
            ),
    decreases ents.len(),
{
    if ents.len() == 0 {
        assert(concat_bundles(ents, f) =~= Seq::<ConfigCommandView>::empty());
        assert(spec_apply_all(s0, concat_bundles(ents, f)) == s0);
        assert(set(s0, get(s0)) == s0);
    } else {
        let d = ents.drop_last();
        let k = ents.last().0;
        let v = ents.last().1;
        let n = ents.len() - 1;
        assert(ents[n] == ents.last());
        assert(assoc_unique(d)) by {
            assert forall|i: int, j: int| 0 <= i < j < d.len() implies d[i].0 != d[j].0 by {
                assert(d[i] == ents[i]);
                assert(d[j] == ents[j]);
            }
        }
        assert forall|i: int| 0 <= i < d.len() implies #[trigger] ctx(get(s0), d[i].0, d[i].1) by {
            assert(d[i] == ents[i]);
        }
        assert forall|s: ConfigStateView, i: int|
            0 <= i < d.len() && ctx(get(s), d[i].0, d[i].1) implies #[trigger] spec_apply_all(
            s,
            f(d[i].0, d[i].1),
        ) == set(s, eff(get(s), d[i].0, d[i].1)) by {
            assert(d[i] == ents[i]);
        }
        lemma_store_bundles(s0, d, f, eff, get, set, ctx);
        let fd = fold_effects(get(s0), d, eff);
        let mid = set(s0, fd);
        lemma_apply_all_append(s0, concat_bundles(d, f), f(k, v));
        // the last entry's key was untouched so far
        assert(!ents_has_key(d, k)) by {
            if ents_has_key(d, k) {
                let i = choose|i: int| 0 <= i < d.len() && d[i].0 == k;
                assert(ents[i].0 == ents[n].0);
            }
        }
        assert(same_at(fd, get(s0), k));
        assert(get(mid) == fd);
        assert(ctx(get(s0), ents[n].0, ents[n].1));
        assert(ctx(fd, k, v));
        assert(spec_apply_all(mid, f(ents[n].0, ents[n].1)) == set(mid, eff(get(mid), k, v)));
        assert(set(set(s0, fd), eff(fd, k, v)) == set(s0, eff(fd, k, v)));
        assert(fold_effects(get(s0), ents, eff) == eff(fd, k, v));
        assert(spec_apply_all(s0, concat_bundles(ents, f)) == set(
            s0,
            fold_effects(get(s0), ents, eff),
        ));
        // pointwise facts
        assert forall|k2: KV| !ents_has_key(ents, k2) implies same_at(
            #[trigger] fold_effects(get(s0), ents, eff),
            get(s0),
            k2,
        ) by {
            assert(!ents_has_key(d, k2)) by {
                if ents_has_key(d, k2) {
                    let i = choose|i: int| 0 <= i < d.len() && d[i].0 == k2;
                    assert(ents[i].0 == k2);
                }
            }
            assert(k2 != k) by {
                assert(ents[n].0 == k);
            }
            assert(same_at(fd, get(s0), k2));
            assert(same_at(eff(fd, k, v), fd, k2));
        }
        assert forall|i: int| 0 <= i < ents.len() implies same_at(
            fold_effects(get(s0), ents, eff),
            eff(get(s0), #[trigger] ents[i].0, ents[i].1),
            ents[i].0,
        ) by {
            if i < n {
                assert(d[i] == ents[i]);
                assert(same_at(fd, eff(get(s0), ents[i].0, ents[i].1), ents[i].0));
                assert(ents[i].0 != k);
                assert(same_at(eff(fd, k, v), fd, ents[i].0));
            } else {
                assert(same_at(fd, get(s0), k));
                assert(same_at(eff(fd, k, v), eff(get(s0), k, v), k));
            }
        }
    }
}

} // verus!

verus! {

/// Commands that remove a cluster absent from the target.
pub open spec fn cluster_rem_bundle(
    bm: Map<Seq<char>, ClusterView>,
    k: Seq<char>,
    v: ClusterView,
) -> Seq<ConfigCommandView> {
    if bm.contains_key(k) {
        Seq::empty()
    } else {
        seq![ConfigCommandView::RemoveCluster { cluster_id: k }]
    }
}

/// Commands that add a target cluster missing or different in the origin.
pub open spec fn cluster_add_bundle(
    am: Map<Seq<char>, ClusterView>,
    k: Seq<char>,
    v: ClusterView,
) -> Seq<ConfigCommandView> {
    if am.contains_key(k) && am[k] == v {
        Seq::empty()
    } else {
        seq![ConfigCommandView::AddCluster(v)]
    }
}

/// Applying the removal bundles of the origin's clusters and then the
/// addition bundles of the target's clusters rewrites the cluster store to
/// the target, and touches nothing else.
#[verifier::rlimit(60)]
pub proof fn lemma_clusters_phases(
    s0: ConfigStateView,
    a_ents: Seq<(Seq<char>, ClusterView)>,
    b_ents: Seq<(Seq<char>, ClusterView)>,
)
    requires
        s0.clusters == assoc_map(a_ents),
        assoc_unique(a_ents),
        assoc_unique(b_ents),
        forall|i: int| 0 <= i < b_ents.len() ==> (#[trigger] b_ents[i].1).cluster_id == b_ents[i].0,
    ensures
        spec_apply_all(
            s0,
            concat_bundles(a_ents, |k: Seq<char>, v: ClusterView| cluster_rem_bundle(assoc_map(b_ents), k, v))
                + concat_bundles(b_ents, |k: Seq<char>, v: ClusterView| cluster_add_bundle(assoc_map(a_ents), k, v)),
        ) == (ConfigStateView { clusters: assoc_map(b_ents), ..s0 }),
{
    let am = assoc_map(a_ents);
    let bm = assoc_map(b_ents);
    let get = |s: ConfigStateView| s.clusters;
    let set = |s: ConfigStateView, m: Map<Seq<char>, ClusterView>| ConfigStateView { clusters: m, ..s };
    let rem_f = |k: Seq<char>, v: ClusterView| cluster_rem_bundle(bm, k, v);
    let add_f = |k: Seq<char>, v: ClusterView| cluster_add_bundle(am, k, v);
    let eff_rem = |m: Map<Seq<char>, ClusterView>, k: Seq<char>, v: ClusterView|
        if bm.contains_key(k) {
            m
        } else {
            m.remove(k)
        };
    let eff_add = |m: Map<Seq<char>, ClusterView>, k: Seq<char>, v: ClusterView| m.insert(k, v);
    let ctx_true = |m: Map<Seq<char>, ClusterView>, k: Seq<char>, v: ClusterView| true;
    let ctx_add = |m: Map<Seq<char>, ClusterView>, k: Seq<char>, v: ClusterView|
        (am.contains_key(k) && am[k] == v) ==> (m.contains_key(k) && m[k] == v);
    // ---- phase 1: removals ----
    assert forall|s: ConfigStateView, i: int|
        0 <= i < a_ents.len() && ctx_true(get(s), a_ents[i].0, a_ents[i].1) implies #[trigger] spec_apply_all(
        s,
        rem_f(a_ents[i].0, a_ents[i].1),
    ) == set(s, eff_rem(get(s), a_ents[i].0, a_ents[i].1)) by {
        let k = a_ents[i].0;
        if bm.contains_key(k) {
            assert(rem_f(k, a_ents[i].1) =~= Seq::<ConfigCommandView>::empty());
            assert(spec_apply_all(s, Seq::<ConfigCommandView>::empty()) == s);
            assert(set(s, get(s)) == s);
        } else {
            lemma_apply_all_one(s, ConfigCommandView::RemoveCluster { cluster_id: k });
            if s.clusters.contains_key(k) {
                assert(spec_apply(s, ConfigCommandView::RemoveCluster { cluster_id: k }).0
                    == set(s, s.clusters.remove(k)));
            } else {
                assert(s.clusters.remove(k) =~= s.clusters);
                assert(set(s, get(s)) == s);
            }
        }
    }
    assert forall|m: Map<Seq<char>, ClusterView>, k: Seq<char>, v: ClusterView, k2: Seq<char>|
        k2 != k implies #[trigger] same_at(eff_rem(m, k, v), m, k2) by {}
    assert forall|m1: Map<Seq<char>, ClusterView>, m2: Map<Seq<char>, ClusterView>, k: Seq<char>, v: ClusterView|
        same_at(m1, m2, k) implies #[trigger] same_at(eff_rem(m1, k, v), eff_rem(m2, k, v), k) by {}
    lemma_store_bundles(s0, a_ents, rem_f, eff_rem, get, set, ctx_true);
    let p = fold_effects(am, a_ents, eff_rem);
    let s1 = set(s0, p);
    // pointwise description of the pruned store
    assert forall|k: Seq<char>| #[trigger] p.contains_key(k) implies am.contains_key(k)
        && bm.contains_key(k) && p[k] == am[k] by {
        lemma_assoc_contains(a_ents, k);
        if ents_has_key(a_ents, k) {
            let i = choose|i: int| 0 <= i < a_ents.len() && a_ents[i].0 == k;
            lemma_assoc_index(a_ents, i);
            assert(same_at(p, eff_rem(am, a_ents[i].0, a_ents[i].1), k));
        } else {
            assert(same_at(p, am, k));
            assert(!am.contains_key(k));
        }
    }
    assert forall|k: Seq<char>| am.contains_key(k) && bm.contains_key(k) implies #[trigger] p.contains_key(
        k,
    ) by {
        lemma_assoc_contains(a_ents, k);
        let i = choose|i: int| 0 <= i < a_ents.len() && a_ents[i].0 == k;
        lemma_assoc_index(a_ents, i);
        assert(same_at(p, eff_rem(am, a_ents[i].0, a_ents[i].1), k));
    }
    // ---- phase 2: additions ----
    assert forall|s: ConfigStateView, i: int|
        0 <= i < b_ents.len() && ctx_add(get(s), b_ents[i].0, b_ents[i].1) implies #[trigger] spec_apply_all(
        s,
        add_f(b_ents[i].0, b_ents[i].1),
    ) == set(s, eff_add(get(s), b_ents[i].0, b_ents[i].1)) by {
        let k = b_ents[i].0;
        let v = b_ents[i].1;
        if am.contains_key(k) && am[k] == v {
            assert(add_f(k, v) =~= Seq::<ConfigCommandView>::empty());
            assert(spec_apply_all(s, Seq::<ConfigCommandView>::empty()) == s);
            assert(s.clusters.contains_key(k) && s.clusters[k] == v);
            assert(s.clusters.insert(k, v) =~= s.clusters);
            assert(set(s, get(s)) == s);
        } else {
            lemma_apply_all_one(s, ConfigCommandView::AddCluster(v));
            assert(v.cluster_id == k);
            if s.clusters.contains_key(k) && s.clusters[k] == v {
                assert(s.clusters.insert(k, v) =~= s.clusters);
                assert(set(s, get(s)) == s);
            }
        }
    }
    assert forall|i: int| 0 <= i < b_ents.len() implies #[trigger] ctx_add(
        get(s1),
        b_ents[i].0,
        b_ents[i].1,
    ) by {
        let k = b_ents[i].0;
        let v = b_ents[i].1;
        if am.contains_key(k) && am[k] == v {
            lemma_assoc_index(b_ents, i);
            assert(bm.contains_key(k));
        }
    }
    assert forall|m1: Map<Seq<char>, ClusterView>, m2: Map<Seq<char>, ClusterView>, k: Seq<char>, v: ClusterView|
        same_at(m1, m2, k) && #[trigger] ctx_add(m1, k, v) implies #[trigger] ctx_add(m2, k, v) by {}
    assert forall|m: Map<Seq<char>, ClusterView>, k: Seq<char>, v: ClusterView, k2: Seq<char>|
        k2 != k implies #[trigger] same_at(eff_add(m, k, v), m, k2) by {}
    assert forall|m1: Map<Seq<char>, ClusterView>, m2: Map<Seq<char>, ClusterView>, k: Seq<char>, v: ClusterView|
        same_at(m1, m2, k) implies #[trigger] same_at(eff_add(m1, k, v), eff_add(m2, k, v), k) by {}
    lemma_store_bundles(s1, b_ents, add_f, eff_add, get, set, ctx_add);
    let q = fold_effects(p, b_ents, eff_add);
    // the patched store is the target
    assert forall|k: Seq<char>| #[trigger] bm.contains_key(k) implies q.contains_key(k) && q[k]
        == bm[k] by {
        lemma_assoc_contains(b_ents, k);
        let i = choose|i: int| 0 <= i < b_ents.len() && b_ents[i].0 == k;
        lemma_assoc_index(b_ents, i);
        assert(same_at(q, eff_add(p, b_ents[i].0, b_ents[i].1), k));
    }
    assert forall|k: Seq<char>| !bm.contains_key(k) implies !(#[trigger] q.contains_key(k)) by {
        lemma_assoc_contains(b_ents, k);
        assert(!ents_has_key(b_ents, k));
        assert(same_at(q, p, k));
    }
    assert(q =~= bm);
    lemma_apply_all_append(s0, concat_bundles(a_ents, rem_f), concat_bundles(b_ents, add_f));
    assert(spec_apply_all(s0, concat_bundles(a_ents, rem_f)) == s1);
    assert(spec_apply_all(s1, concat_bundles(b_ents, add_f)) == set(s1, q));
    assert(set(s1, q) == set(s0, q));
}

/// When origin and target hold the same clusters, both phases are empty.
pub proof fn lemma_clusters_diff_empty(
    a_ents: Seq<(Seq<char>, ClusterView)>,
    b_ents: Seq<(Seq<char>, ClusterView)>,
)
    requires
        assoc_map(a_ents) == assoc_map(b_ents),
        assoc_unique(a_ents),
        assoc_unique(b_ents),
    ensures
        concat_bundles(a_ents, |k: Seq<char>, v: ClusterView| cluster_rem_bundle(assoc_map(b_ents), k, v)).len() == 0,
        concat_bundles(b_ents, |k: Seq<char>, v: ClusterView| cluster_add_bundle(assoc_map(a_ents), k, v)).len() == 0,
{
    let am = assoc_map(a_ents);
    let bm = assoc_map(b_ents);
    let rem_f = |k: Seq<char>, v: ClusterView| cluster_rem_bundle(bm, k, v);
    let add_f = |k: Seq<char>, v: ClusterView| cluster_add_bundle(am, k, v);
    assert forall|i: int| 0 <= i < a_ents.len() implies (#[trigger] rem_f(a_ents[i].0, a_ents[i].1)).len()
        == 0 by {
        lemma_assoc_index(a_ents, i);
    }
    lemma_concat_bundles_empty(a_ents, rem_f);
    assert forall|i: int| 0 <= i < b_ents.len() implies (#[trigger] add_f(b_ents[i].0, b_ents[i].1)).len()
        == 0 by {
        lemma_assoc_index(b_ents, i);
    }
    lemma_concat_bundles_empty(b_ents, add_f);
}

/// Emits the cluster removals of the diff.
fn rem_cmds_clusters(a: &Table<String, Cluster>, b: &Table<String, Cluster>, out: &mut Vec<ConfigCommand>)
    ensures
        final(out).deep_view() == old(out).deep_view() + concat_bundles(
            a.entries.deep_view(),
            |k: Seq<char>, v: ClusterView| cluster_rem_bundle(b.view_map(), k, v),
        ),
{
    let ghost f = |k: Seq<char>, v: ClusterView| cluster_rem_bundle(b.view_map(), k, v);
    let ghost a_ents = a.entries.deep_view();
    proof {
        assert(a_ents.take(0) =~= Seq::<(Seq<char>, ClusterView)>::empty());
        assert(out.deep_view() =~= old(out).deep_view() + concat_bundles(a_ents.take(0), f));
    }
    let mut i: usize = 0;
    while i < a.entries.len()
        invariant
            0 <= i <= a.entries@.len(),
            a_ents == a.entries.deep_view(),
            f == (|k: Seq<char>, v: ClusterView| cluster_rem_bundle(b.view_map(), k, v)),
            out.deep_view() == old(out).deep_view() + concat_bundles(a_ents.take(i as int), f),
        decreases a.entries@.len() - i,
    {
        let ghost pre = out.deep_view();
        if !b.contains(&a.entries[i].0) {
            out.push(ConfigCommand::RemoveCluster { cluster_id: a.entries[i].0.clone() });
            proof {
                assert(out.deep_view() =~= pre.push(
                    ConfigCommandView::RemoveCluster { cluster_id: a_ents[i as int].0 },
                ));
            }
        }
        proof {
            assert(a_ents.take(i + 1).drop_last() =~= a_ents.take(i as int));
            assert(a_ents.take(i + 1).last() == a_ents[i as int]);
            assert(concat_bundles(a_ents.take(i + 1), f) == concat_bundles(a_ents.take(i as int), f)
                + f(a_ents[i as int].0, a_ents[i as int].1));
            assert(out.deep_view() =~= old(out).deep_view() + concat_bundles(a_ents.take(i + 1), f));
        }
        i += 1;
    }
    proof {
        assert(a_ents.take(a.entries@.len() as int) =~= a_ents);
    }
}

/// Emits the cluster additions of the diff.
fn add_cmds_clusters(a: &Table<String, Cluster>, b: &Table<String, Cluster>, out: &mut Vec<ConfigCommand>)
    requires
        a.wf(),
    ensures
        final(out).deep_view() == old(out).deep_view() + concat_bundles(
            b.entries.deep_view(),
            |k: Seq<char>, v: ClusterView| cluster_add_bundle(a.view_map(), k, v),
        ),
{
    let ghost f = |k: Seq<char>, v: ClusterView| cluster_add_bundle(a.view_map(), k, v);
    let ghost b_ents = b.entries.deep_view();
    proof {
        assert(b_ents.take(0) =~= Seq::<(Seq<char>, ClusterView)>::empty());
        assert(out.deep_view() =~= old(out).deep_view() + concat_bundles(b_ents.take(0), f));
    }
    let mut i: usize = 0;
    while i < b.entries.len()
        invariant
            0 <= i <= b.entries@.len(),
            a.wf(),
            b_ents == b.entries.deep_view(),
            f == (|k: Seq<char>, v: ClusterView| cluster_add_bundle(a.view_map(), k, v)),
            out.deep_view() == old(out).deep_view() + concat_bundles(b_ents.take(i as int), f),
        decreases b.entries@.len() - i,
    {
        let ghost pre = out.deep_view();
        let same: bool = match a.get(&b.entries[i].0) {
            Option::None => false,
            Option::Some(existing) => existing.deep_eq(&b.entries[i].1),
        };
        if !same {
            out.push(ConfigCommand::AddCluster(b.entries[i].1.duplicate()));
            proof {
                assert(out.deep_view() =~= pre.push(
                    ConfigCommandView::AddCluster(b_ents[i as int].1),
                ));
            }
        }
        proof {
            assert(b_ents.take(i + 1).drop_last() =~= b_ents.take(i as int));
            assert(b_ents.take(i + 1).last() == b_ents[i as int]);
            assert(concat_bundles(b_ents.take(i + 1), f) == concat_bundles(b_ents.take(i as int), f)
                + f(b_ents[i as int].0, b_ents[i as int].1));
            assert(out.deep_view() =~= old(out).deep_view() + concat_bundles(b_ents.take(i + 1), f));
        }
        i += 1;
    }
    proof {
        assert(b_ents.take(b.entries@.len() as int) =~= b_ents);
    }
}

} // verus!

verus! {

/// Commands that remove a backends entry absent from the target.
pub open spec fn backends_rem_bundle(bm: Map<BackendKeyView, BackendView>, k: BackendKeyView, v: BackendView) -> Seq<ConfigCommandView> {
    if bm.contains_key(k) {
        Seq::empty()
    } else {
        seq![ConfigCommandView::RemoveBackend { key: k }]
    }
}

/// Commands that add a target backends entry missing or different in the origin.
pub open spec fn backends_add_bundle(am: Map<BackendKeyView, BackendView>, k: BackendKeyView, v: BackendView) -> Seq<ConfigCommandView> {
    if am.contains_key(k) && am[k] == v {
        Seq::empty()
    } else {
        seq![ConfigCommandView::AddBackend(v)]
    }
}

/// Applying the removal bundles of the origin and the addition bundles of
/// the target rewrites this store to the target, and touches nothing else.
#[verifier::rlimit(60)]
pub proof fn lemma_backends_phases(
    s0: ConfigStateView,
    a_ents: Seq<(BackendKeyView, BackendView)>,
    b_ents: Seq<(BackendKeyView, BackendView)>,
)
    requires
        s0.backends == assoc_map(a_ents),
        assoc_unique(a_ents),
        assoc_unique(b_ents),
        forall|i: int| 0 <= i < b_ents.len() ==> backend_key_of(#[trigger] b_ents[i].1) == b_ents[i].0,
        
    ensures
        spec_apply_all(
            s0,
            concat_bundles(a_ents, |k: BackendKeyView, v: BackendView| backends_rem_bundle(assoc_map(b_ents), k, v))
                + concat_bundles(b_ents, |k: BackendKeyView, v: BackendView| backends_add_bundle(assoc_map(a_ents), k, v)),
        ) == (ConfigStateView { backends: assoc_map(b_ents), ..s0 }),
{
    let am = assoc_map(a_ents);
    let bm = assoc_map(b_ents);
    let get = |s: ConfigStateView| s.backends;
    let set = |s: ConfigStateView, m: Map<BackendKeyView, BackendView>| ConfigStateView { backends: m, ..s };
    let rem_f = |k: BackendKeyView, v: BackendView| backends_rem_bundle(bm, k, v);
    let add_f = |k: BackendKeyView, v: BackendView| backends_add_bundle(am, k, v);
    let eff_rem = |m: Map<BackendKeyView, BackendView>, k: BackendKeyView, v: BackendView|
        if bm.contains_key(k) {
            m
        } else {
            m.remove(k)
        };
    let eff_add = |m: Map<BackendKeyView, BackendView>, k: BackendKeyView, v: BackendView| m.insert(k, v);
    let ctx_true = |m: Map<BackendKeyView, BackendView>, k: BackendKeyView, v: BackendView| true;
    let ctx_add = |m: Map<BackendKeyView, BackendView>, k: BackendKeyView, v: BackendView|
        (am.contains_key(k) && am[k] == v) ==> (m.contains_key(k) && m[k] == v);
    // ---- phase 1: removals ----
    assert forall|s: ConfigStateView, i: int|
        0 <= i < a_ents.len() && ctx_true(get(s), a_ents[i].0, a_ents[i].1) implies #[trigger] spec_apply_all(
        s,
        rem_f(a_ents[i].0, a_ents[i].1),
    ) == set(s, eff_rem(get(s), a_ents[i].0, a_ents[i].1)) by {
        let k = a_ents[i].0;
        let v = a_ents[i].1;
        if bm.contains_key(k) {
            assert(rem_f(k, v) =~= Seq::<ConfigCommandView>::empty());
            assert(spec_apply_all(s, Seq::<ConfigCommandView>::empty()) == s);
            assert(set(s, get(s)) == s);
        } else {
            
            lemma_apply_all_one(s, ConfigCommandView::RemoveBackend { key: k });
            if s.backends.contains_key(k) {
                assert(spec_apply(s, ConfigCommandView::RemoveBackend { key: k }).0 == set(s, s.backends.remove(k)));
            } else {
                assert(s.backends.remove(k) =~= s.backends);
                assert(set(s, get(s)) == s);
            }
        }
    }
    assert forall|m: Map<BackendKeyView, BackendView>, k: BackendKeyView, v: BackendView, k2: BackendKeyView|
        k2 != k implies #[trigger] same_at(eff_rem(m, k, v), m, k2) by {}
    assert forall|m1: Map<BackendKeyView, BackendView>, m2: Map<BackendKeyView, BackendView>, k: BackendKeyView, v: BackendView|
        same_at(m1, m2, k) implies #[trigger] same_at(eff_rem(m1, k, v), eff_rem(m2, k, v), k) by {}
    lemma_store_bundles(s0, a_ents, rem_f, eff_rem, get, set, ctx_true);
    let p = fold_effects(am, a_ents, eff_rem);
    let s1 = set(s0, p);
    assert forall|k: BackendKeyView| #[trigger] p.contains_key(k) implies am.contains_key(k)
        && bm.contains_key(k) && p[k] == am[k] by {
        lemma_assoc_contains(a_ents, k);
        if ents_has_key(a_ents, k) {
            let i = choose|i: int| 0 <= i < a_ents.len() && a_ents[i].0 == k;
            lemma_assoc_index(a_ents, i);
            assert(same_at(p, eff_rem(am, a_ents[i].0, a_ents[i].1), k));
        } else {
            assert(same_at(p, am, k));
            assert(!am.contains_key(k));
        }
    }
    assert forall|k: BackendKeyView| am.contains_key(k) && bm.contains_key(k) implies #[trigger] p.contains_key(
        k,
    ) by {
        lemma_assoc_contains(a_ents, k);
        let i = choose|i: int| 0 <= i < a_ents.len() && a_ents[i].0 == k;
        lemma_assoc_index(a_ents, i);
        assert(same_at(p, eff_rem(am, a_ents[i].0, a_ents[i].1), k));
    }
    // ---- phase 2: additions ----
    assert forall|s: ConfigStateView, i: int|
        0 <= i < b_ents.len() && ctx_add(get(s), b_ents[i].0, b_ents[i].1) implies #[trigger] spec_apply_all(
        s,
        add_f(b_ents[i].0, b_ents[i].1),
    ) == set(s, eff_add(get(s), b_ents[i].0, b_ents[i].1)) by {
        let k = b_ents[i].0;
        let v = b_ents[i].1;
        if am.contains_key(k) && am[k] == v {
            assert(add_f(k, v) =~= Seq::<ConfigCommandView>::empty());
            assert(spec_apply_all(s, Seq::<ConfigCommandView>::empty()) == s);
            assert(s.backends.contains_key(k) && s.backends[k] == v);
            assert(s.backends.insert(k, v) =~= s.backends);
            assert(set(s, get(s)) == s);
        } else {
            lemma_apply_all_one(s, ConfigCommandView::AddBackend(v));
            assert(backend_key_of(v) == k);
            if s.backends.contains_key(k) && s.backends[k] == v {
                assert(s.backends.insert(k, v) =~= s.backends);
                assert(set(s, get(s)) == s);
            }
        }
    }
    assert forall|i: int| 0 <= i < b_ents.len() implies #[trigger] ctx_add(
        get(s1),
        b_ents[i].0,
        b_ents[i].1,
    ) by {
        let k = b_ents[i].0;
        let v = b_ents[i].1;
        if am.contains_key(k) && am[k] == v {
            lemma_assoc_index(b_ents, i);
            assert(bm.contains_key(k));
        }
    }
    assert forall|m1: Map<BackendKeyView, BackendView>, m2: Map<BackendKeyView, BackendView>, k: BackendKeyView, v: BackendView|
        same_at(m1, m2, k) && #[trigger] ctx_add(m1, k, v) implies #[trigger] ctx_add(m2, k, v) by {}
    assert forall|m: Map<BackendKeyView, BackendView>, k: BackendKeyView, v: BackendView, k2: BackendKeyView|
        k2 != k implies #[trigger] same_at(eff_add(m, k, v), m, k2) by {}
    assert forall|m1: Map<BackendKeyView, BackendView>, m2: Map<BackendKeyView, BackendView>, k: BackendKeyView, v: BackendView|
        same_at(m1, m2, k) implies #[trigger] same_at(eff_add(m1, k, v), eff_add(m2, k, v), k) by {}
    lemma_store_bundles(s1, b_ents, add_f, eff_add, get, set, ctx_add);
    let q = fold_effects(p, b_ents, eff_add);
    assert forall|k: BackendKeyView| #[trigger] bm.contains_key(k) implies q.contains_key(k) && q[k]
        == bm[k] by {
        lemma_assoc_contains(b_ents, k);
        let i = choose|i: int| 0 <= i < b_ents.len() && b_ents[i].0 == k;
        lemma_assoc_index(b_ents, i);
        assert(same_at(q, eff_add(p, b_ents[i].0, b_ents[i].1), k));
    }
    assert forall|k: BackendKeyView| !bm.contains_key(k) implies !(#[trigger] q.contains_key(k)) by {
        lemma_assoc_contains(b_ents, k);
        assert(!ents_has_key(b_ents, k));
        assert(same_at(q, p, k));
    }
    assert(q =~= bm);
    lemma_apply_all_append(s0, concat_bundles(a_ents, rem_f), concat_bundles(b_ents, add_f));
    assert(spec_apply_all(s0, concat_bundles(a_ents, rem_f)) == s1);
    assert(spec_apply_all(s1, concat_bundles(b_ents, add_f)) == set(s1, q));
    assert(set(s1, q) == set(s0, q));
}

/// When origin and target agree on this store, both phases are empty.
pub proof fn lemma_backends_diff_empty(a_ents: Seq<(BackendKeyView, BackendView)>, b_ents: Seq<(BackendKeyView, BackendView)>)
    requires
        assoc_map(a_ents) == assoc_map(b_ents),
        assoc_unique(a_ents),
        assoc_unique(b_ents),
    ensures
        concat_bundles(a_ents, |k: BackendKeyView, v: BackendView| backends_rem_bundle(assoc_map(b_ents), k, v)).len() == 0,
        concat_bundles(b_ents, |k: BackendKeyView, v: BackendView| backends_add_bundle(assoc_map(a_ents), k, v)).len() == 0,
{
    let am = assoc_map(a_ents);
    let bm = assoc_map(b_ents);
    let rem_f = |k: BackendKeyView, v: BackendView| backends_rem_bundle(bm, k, v);
    let add_f = |k: BackendKeyView, v: BackendView| backends_add_bundle(am, k, v);
    assert forall|i: int| 0 <= i < a_ents.len() implies (#[trigger] rem_f(a_ents[i].0, a_ents[i].1)).len()
        == 0 by {
        lemma_assoc_index(a_ents, i);
    }
    lemma_concat_bundles_empty(a_ents, rem_f);
    assert forall|i: int| 0 <= i < b_ents.len() implies (#[trigger] add_f(b_ents[i].0, b_ents[i].1)).len()
        == 0 by {
        lemma_assoc_index(b_ents, i);
    }
    lemma_concat_bundles_empty(b_ents, add_f);
}

/// Emits the backends removals of the diff.
fn rem_cmds_backends(a: &Table<BackendKey, Backend>, b: &Table<BackendKey, Backend>, out: &mut Vec<ConfigCommand>)
    ensures
        final(out).deep_view() == old(out).deep_view() + concat_bundles(
            a.entries.deep_view(),
            |k: BackendKeyView, v: BackendView| backends_rem_bundle(b.view_map(), k, v),
        ),
{
    let ghost f = |k: BackendKeyView, v: BackendView| backends_rem_bundle(b.view_map(), k, v);
    let ghost a_ents = a.entries.deep_view();
    proof {
        assert(a_ents.take(0) =~= Seq::<(BackendKeyView, BackendView)>::empty());
        assert(out.deep_view() =~= old(out).deep_view() + concat_bundles(a_ents.take(0), f));
    }
    let mut i: usize = 0;
    while i < a.entries.len()
        invariant
            0 <= i <= a.entries@.len(),
            a_ents == a.entries.deep_view(),
            f == (|k: BackendKeyView, v: BackendView| backends_rem_bundle(b.view_map(), k, v)),
            out.deep_view() == old(out).deep_view() + concat_bundles(a_ents.take(i as int), f),
        decreases a.entries@.len() - i,
    {
        let ghost pre = out.deep_view();
        if !b.contains(&a.entries[i].0) {
            out.push(ConfigCommand::RemoveBackend { key: BackendKey { cluster_id: a.entries[i].0.cluster_id.clone(), backend_id: a.entries[i].0.backend_id.clone() } });
            proof {
                assert(out.deep_view() =~= pre.push(ConfigCommandView::RemoveBackend { key: a_ents[i as int].0 }));
            }
        }
        proof {
            assert(a_ents.take(i + 1).drop_last() =~= a_ents.take(i as int));
            assert(a_ents.take(i + 1).last() == a_ents[i as int]);
            assert(concat_bundles(a_ents.take(i + 1), f) == concat_bundles(a_ents.take(i as int), f)
                + f(a_ents[i as int].0, a_ents[i as int].1));
            assert(out.deep_view() =~= old(out).deep_view() + concat_bundles(a_ents.take(i + 1), f));
        }
        i += 1;
    }
    proof {
        assert(a_ents.take(a.entries@.len() as int) =~= a_ents);
    }
}

/// Emits the backends additions of the diff.
fn add_cmds_backends(a: &Table<BackendKey, Backend>, b: &Table<BackendKey, Backend>, out: &mut Vec<ConfigCommand>)
    requires
        a.wf(),
    ensures
        final(out).deep_view() == old(out).deep_view() + concat_bundles(
            b.entries.deep_view(),
            |k: BackendKeyView, v: BackendView| backends_add_bundle(a.view_map(), k, v),
        ),
{
    let ghost f = |k: BackendKeyView, v: BackendView| backends_add_bundle(a.view_map(), k, v);
    let ghost b_ents = b.entries.deep_view();
    proof {
        assert(b_ents.take(0) =~= Seq::<(BackendKeyView, BackendView)>::empty());
        assert(out.deep_view() =~= old(out).deep_view() + concat_bundles(b_ents.take(0), f));
    }
    let mut i: usize = 0;
    while i < b.entries.len()
        invariant
            0 <= i <= b.entries@.len(),
            a.wf(),
            b_ents == b.entries.deep_view(),
            f == (|k: BackendKeyView, v: BackendView| backends_add_bundle(a.view_map(), k, v)),
            out.deep_view() == old(out).deep_view() + concat_bundles(b_ents.take(i as int), f),
        decreases b.entries@.len() - i,
    {
        let ghost pre = out.deep_view();
        let same: bool = match a.get(&b.entries[i].0) {
            Option::None => false,
            Option::Some(existing) => existing.deep_eq(&b.entries[i].1),
        };
        if !same {
            out.push(ConfigCommand::AddBackend(b.entries[i].1.duplicate()));
            proof {
                assert(out.deep_view() =~= pre.push(ConfigCommandView::AddBackend(b_ents[i as int].1)));
            }
        }
        proof {
            assert(b_ents.take(i + 1).drop_last() =~= b_ents.take(i as int));
            assert(b_ents.take(i + 1).last() == b_ents[i as int]);
            assert(concat_bundles(b_ents.take(i + 1), f) == concat_bundles(b_ents.take(i as int), f)
                + f(b_ents[i as int].0, b_ents[i as int].1));
            assert(out.deep_view() =~= old(out).deep_view() + concat_bundles(b_ents.take(i + 1), f));
        }
        i += 1;
    }
    proof {
        assert(b_ents.take(b.entries@.len() as int) =~= b_ents);
    }
}

} // verus!


verus! {

/// Commands that remove a certificates entry absent from the target.
pub open spec fn certificates_rem_bundle(bm: Map<CertificateKeyView, CertificateView>, k: CertificateKeyView, v: CertificateView) -> Seq<ConfigCommandView> {
    if bm.contains_key(k) {
        Seq::empty()
    } else {
        seq![ConfigCommandView::RemoveCertificate { key: k }]
    }
}

/// Commands that add a target certificates entry missing or different in the origin.
pub open spec fn certificates_add_bundle(am: Map<CertificateKeyView, CertificateView>, k: CertificateKeyView, v: CertificateView) -> Seq<ConfigCommandView> {
    if am.contains_key(k) && am[k] == v {
        Seq::empty()
    } else {
        seq![ConfigCommandView::AddCertificate { key: k, certificate: v }]
    }
}

/// Applying the removal bundles of the origin and the addition bundles of
/// the target rewrites this store to the target, and touches nothing else.
#[verifier::rlimit(60)]
pub proof fn lemma_certificates_phases(
    s0: ConfigStateView,
    a_ents: Seq<(CertificateKeyView, CertificateView)>,
    b_ents: Seq<(CertificateKeyView, CertificateView)>,
)
    requires
        s0.certificates == assoc_map(a_ents),
        assoc_unique(a_ents),
        assoc_unique(b_ents),
        
        
    ensures
        spec_apply_all(
            s0,
            concat_bundles(a_ents, |k: CertificateKeyView, v: CertificateView| certificates_rem_bundle(assoc_map(b_ents), k, v))
                + concat_bundles(b_ents, |k: CertificateKeyView, v: CertificateView| certificates_add_bundle(assoc_map(a_ents), k, v)),
        ) == (ConfigStateView { certificates: assoc_map(b_ents), ..s0 }),
{
    let am = assoc_map(a_ents);
    let bm = assoc_map(b_ents);
    let get = |s: ConfigStateView| s.certificates;
    let set = |s: ConfigStateView, m: Map<CertificateKeyView, CertificateView>| ConfigStateView { certificates: m, ..s };
    let rem_f = |k: CertificateKeyView, v: CertificateView| certificates_rem_bundle(bm, k, v);
    let add_f = |k: CertificateKeyView, v: CertificateView| certificates_add_bundle(am, k, v);
    let eff_rem = |m: Map<CertificateKeyView, CertificateView>, k: CertificateKeyView, v: CertificateView|
        if bm.contains_key(k) {
            m
        } else {
            m.remove(k)
        };
    let eff_add = |m: Map<CertificateKeyView, CertificateView>, k: CertificateKeyView, v: CertificateView| m.insert(k, v);
    let ctx_true = |m: Map<CertificateKeyView, CertificateView>, k: CertificateKeyView, v: CertificateView| true;
    let ctx_add = |m: Map<CertificateKeyView, CertificateView>, k: CertificateKeyView, v: CertificateView|
        (am.contains_key(k) && am[k] == v) ==> (m.contains_key(k) && m[k] == v);
    // ---- phase 1: removals ----
    assert forall|s: ConfigStateView, i: int|
        0 <= i < a_ents.len() && ctx_true(get(s), a_ents[i].0, a_ents[i].1) implies #[trigger] spec_apply_all(
        s,
        rem_f(a_ents[i].0, a_ents[i].1),
    ) == set(s, eff_rem(get(s), a_ents[i].0, a_ents[i].1)) by {
        let k = a_ents[i].0;
        let v = a_ents[i].1;
        if bm.contains_key(k) {
            assert(rem_f(k, v) =~= Seq::<ConfigCommandView>::empty());
            assert(spec_apply_all(s, Seq::<ConfigCommandView>::empty()) == s);
            assert(set(s, get(s)) == s);
        } else {
            
            lemma_apply_all_one(s, ConfigCommandView::RemoveCertificate { key: k });
            if s.certificates.contains_key(k) {
                assert(spec_apply(s, ConfigCommandView::RemoveCertificate { key: k }).0 == set(s, s.certificates.remove(k)));
            } else {
                assert(s.certificates.remove(k) =~= s.certificates);
                assert(set(s, get(s)) == s);
            }
        }
    }
    assert forall|m: Map<CertificateKeyView, CertificateView>, k: CertificateKeyView, v: CertificateView, k2: CertificateKeyView|
        k2 != k implies #[trigger] same_at(eff_rem(m, k, v), m, k2) by {}
    assert forall|m1: Map<CertificateKeyView, CertificateView>, m2: Map<CertificateKeyView, CertificateView>, k: CertificateKeyView, v: CertificateView|
        same_at(m1, m2, k) implies #[trigger] same_at(eff_rem(m1, k, v), eff_rem(m2, k, v), k) by {}
    lemma_store_bundles(s0, a_ents, rem_f, eff_rem, get, set, ctx_true);
    let p = fold_effects(am, a_ents, eff_rem);
    let s1 = set(s0, p);
    assert forall|k: CertificateKeyView| #[trigger] p.contains_key(k) implies am.contains_key(k)
        && bm.contains_key(k) && p[k] == am[k] by {
        lemma_assoc_contains(a_ents, k);
        if ents_has_key(a_ents, k) {
            let i = choose|i: int| 0 <= i < a_ents.len() && a_ents[i].0 == k;
            lemma_assoc_index(a_ents, i);
            assert(same_at(p, eff_rem(am, a_ents[i].0, a_ents[i].1), k));
        } else {
            assert(same_at(p, am, k));
            assert(!am.contains_key(k));
        }
    }
    assert forall|k: CertificateKeyView| am.contains_key(k) && bm.contains_key(k) implies #[trigger] p.contains_key(
        k,
    ) by {
        lemma_assoc_contains(a_ents, k);
        let i = choose|i: int| 0 <= i < a_ents.len() && a_ents[i].0 == k;
        lemma_assoc_index(a_ents, i);
        assert(same_at(p, eff_rem(am, a_ents[i].0, a_ents[i].1), k));
    }
    // ---- phase 2: additions ----
    assert forall|s: ConfigStateView, i: int|
        0 <= i < b_ents.len() && ctx_add(get(s), b_ents[i].0, b_ents[i].1) implies #[trigger] spec_apply_all(
        s,
        add_f(b_ents[i].0, b_ents[i].1),
    ) == set(s, eff_add(get(s), b_ents[i].0, b_ents[i].1)) by {
        let k = b_ents[i].0;
        let v = b_ents[i].1;
        if am.contains_key(k) && am[k] == v {
            assert(add_f(k, v) =~= Seq::<ConfigCommandView>::empty());
            assert(spec_apply_all(s, Seq::<ConfigCommandView>::empty()) == s);
            assert(s.certificates.contains_key(k) && s.certificates[k] == v);
            assert(s.certificates.insert(k, v) =~= s.certificates);
            assert(set(s, get(s)) == s);
        } else {
            lemma_apply_all_one(s, ConfigCommandView::AddCertificate { key: k, certificate: v });
            
            if s.certificates.contains_key(k) && s.certificates[k] == v {
                assert(s.certificates.insert(k, v) =~= s.certificates);
                assert(set(s, get(s)) == s);
            }
        }
    }
    assert forall|i: int| 0 <= i < b_ents.len() implies #[trigger] ctx_add(
        get(s1),
        b_ents[i].0,
        b_ents[i].1,
    ) by {
        let k = b_ents[i].0;
        let v = b_ents[i].1;
        if am.contains_key(k) && am[k] == v {
            lemma_assoc_index(b_ents, i);
            assert(bm.contains_key(k));
        }
    }
    assert forall|m1: Map<CertificateKeyView, CertificateView>, m2: Map<CertificateKeyView, CertificateView>, k: CertificateKeyView, v: CertificateView|
        same_at(m1, m2, k) && #[trigger] ctx_add(m1, k, v) implies #[trigger] ctx_add(m2, k, v) by {}
    assert forall|m: Map<CertificateKeyView, CertificateView>, k: CertificateKeyView, v: CertificateView, k2: CertificateKeyView|
        k2 != k implies #[trigger] same_at(eff_add(m, k, v), m, k2) by {}
    assert forall|m1: Map<CertificateKeyView, CertificateView>, m2: Map<CertificateKeyView, CertificateView>, k: CertificateKeyView, v: CertificateView|
        same_at(m1, m2, k) implies #[trigger] same_at(eff_add(m1, k, v), eff_add(m2, k, v), k) by {}
    lemma_store_bundles(s1, b_ents, add_f, eff_add, get, set, ctx_add);
    let q = fold_effects(p, b_ents, eff_add);
    assert forall|k: CertificateKeyView| #[trigger] bm.contains_key(k) implies q.contains_key(k) && q[k]
        == bm[k] by {
        lemma_assoc_contains(b_ents, k);
        let i = choose|i: int| 0 <= i < b_ents.len() && b_ents[i].0 == k;
        lemma_assoc_index(b_ents, i);
        assert(same_at(q, eff_add(p, b_ents[i].0, b_ents[i].1), k));
    }
    assert forall|k: CertificateKeyView| !bm.contains_key(k) implies !(#[trigger] q.contains_key(k)) by {
        lemma_assoc_contains(b_ents, k);
        assert(!ents_has_key(b_ents, k));
        assert(same_at(q, p, k));
    }
    assert(q =~= bm);
    lemma_apply_all_append(s0, concat_bundles(a_ents, rem_f), concat_bundles(b_ents, add_f));
    assert(spec_apply_all(s0, concat_bundles(a_ents, rem_f)) == s1);
    assert(spec_apply_all(s1, concat_bundles(b_ents, add_f)) == set(s1, q));
    assert(set(s1, q) == set(s0, q));
}

/// When origin and target agree on this store, both phases are empty.
pub proof fn lemma_certificates_diff_empty(a_ents: Seq<(CertificateKeyView, CertificateView)>, b_ents: Seq<(CertificateKeyView, CertificateView)>)
    requires
        assoc_map(a_ents) == assoc_map(b_ents),
        assoc_unique(a_ents),
        assoc_unique(b_ents),
    ensures
        concat_bundles(a_ents, |k: CertificateKeyView, v: CertificateView| certificates_rem_bundle(assoc_map(b_ents), k, v)).len() == 0,
        concat_bundles(b_ents, |k: CertificateKeyView, v: CertificateView| certificates_add_bundle(assoc_map(a_ents), k, v)).len() == 0,
{
    let am = assoc_map(a_ents);
    let bm = assoc_map(b_ents);
    let rem_f = |k: CertificateKeyView, v: CertificateView| certificates_rem_bundle(bm, k, v);
    let add_f = |k: CertificateKeyView, v: CertificateView| certificates_add_bundle(am, k, v);
    assert forall|i: int| 0 <= i < a_ents.len() implies (#[trigger] rem_f(a_ents[i].0, a_ents[i].1)).len()
        == 0 by {
        lemma_assoc_index(a_ents, i);
    }
    lemma_concat_bundles_empty(a_ents, rem_f);
    assert forall|i: int| 0 <= i < b_ents.len() implies (#[trigger] add_f(b_ents[i].0, b_ents[i].1)).len()
        == 0 by {
        lemma_assoc_index(b_ents, i);
    }
    lemma_concat_bundles_empty(b_ents, add_f);
}

/// Emits the certificates removals of the diff.
fn rem_cmds_certificates(a: &Table<CertificateKey, Certificate>, b: &Table<CertificateKey, Certificate>, out: &mut Vec<ConfigCommand>)
    ensures
        final(out).deep_view() == old(out).deep_view() + concat_bundles(
            a.entries.deep_view(),
            |k: CertificateKeyView, v: CertificateView| certificates_rem_bundle(b.view_map(), k, v),
        ),
{
    let ghost f = |k: CertificateKeyView, v: CertificateView| certificates_rem_bundle(b.view_map(), k, v);
    let ghost a_ents = a.entries.deep_view();
    proof {
        assert(a_ents.take(0) =~= Seq::<(CertificateKeyView, CertificateView)>::empty());
        assert(out.deep_view() =~= old(out).deep_view() + concat_bundles(a_ents.take(0), f));
    }
    let mut i: usize = 0;
    while i < a.entries.len()
        invariant
            0 <= i <= a.entries@.len(),
            a_ents == a.entries.deep_view(),
            f == (|k: CertificateKeyView, v: CertificateView| certificates_rem_bundle(b.view_map(), k, v)),
            out.deep_view() == old(out).deep_view() + concat_bundles(a_ents.take(i as int), f),
        decreases a.entries@.len() - i,
    {
        let ghost pre = out.deep_view();
        if !b.contains(&a.entries[i].0) {
            out.push(ConfigCommand::RemoveCertificate { key: a.entries[i].0.duplicate() });
            proof {
                assert(out.deep_view() =~= pre.push(ConfigCommandView::RemoveCertificate { key: a_ents[i as int].0 }));
            }
        }
        proof {
            assert(a_ents.take(i + 1).drop_last() =~= a_ents.take(i as int));
            assert(a_ents.take(i + 1).last() == a_ents[i as int]);
            assert(concat_bundles(a_ents.take(i + 1), f) == concat_bundles(a_ents.take(i as int), f)
                + f(a_ents[i as int].0, a_ents[i as int].1));
            assert(out.deep_view() =~= old(out).deep_view() + concat_bundles(a_ents.take(i + 1), f));
        }
        i += 1;
    }
    proof {
        assert(a_ents.take(a.entries@.len() as int) =~= a_ents);
    }
}

/// Emits the certificates additions of the diff.
fn add_cmds_certificates(a: &Table<CertificateKey, Certificate>, b: &Table<CertificateKey, Certificate>, out: &mut Vec<ConfigCommand>)
    requires
        a.wf(),
    ensures
        final(out).deep_view() == old(out).deep_view() + concat_bundles(
            b.entries.deep_view(),
            |k: CertificateKeyView, v: CertificateView| certificates_add_bundle(a.view_map(), k, v),
        ),
{
    let ghost f = |k: CertificateKeyView, v: CertificateView| certificates_add_bundle(a.view_map(), k, v);
    let ghost b_ents = b.entries.deep_view();
    proof {
        assert(b_ents.take(0) =~= Seq::<(CertificateKeyView, CertificateView)>::empty());
        assert(out.deep_view() =~= old(out).deep_view() + concat_bundles(b_ents.take(0), f));
    }
    let mut i: usize = 0;
    while i < b.entries.len()
        invariant
            0 <= i <= b.entries@.len(),
            a.wf(),
            b_ents == b.entries.deep_view(),
            f == (|k: CertificateKeyView, v: CertificateView| certificates_add_bundle(a.view_map(), k, v)),
            out.deep_view() == old(out).deep_view() + concat_bundles(b_ents.take(i as int), f),
        decreases b.entries@.len() - i,
    {
        let ghost pre = out.deep_view();
        let same: bool = match a.get(&b.entries[i].0) {
            Option::None => false,
            Option::Some(existing) => existing.deep_eq(&b.entries[i].1),
        };
        if !same {
            out.push(ConfigCommand::AddCertificate { key: b.entries[i].0.duplicate(), certificate: b.entries[i].1.duplicate() });
            proof {
                assert(out.deep_view() =~= pre.push(ConfigCommandView::AddCertificate { key: b_ents[i as int].0, certificate: b_ents[i as int].1 }));
            }
        }
        proof {
            assert(b_ents.take(i + 1).drop_last() =~= b_ents.take(i as int));
            assert(b_ents.take(i + 1).last() == b_ents[i as int]);
            assert(concat_bundles(b_ents.take(i + 1), f) == concat_bundles(b_ents.take(i as int), f)
                + f(b_ents[i as int].0, b_ents[i as int].1));
            assert(out.deep_view() =~= old(out).deep_view() + concat_bundles(b_ents.take(i + 1), f));
        }
        i += 1;
    }
    proof {
        assert(b_ents.take(b.entries@.len() as int) =~= b_ents);
    }
}

} // verus!


verus! {

/// Commands that remove a tcp_frontends entry absent from the target.
pub open spec fn tcp_frontends_rem_bundle(bm: Map<SocketAddress, TcpFrontendView>, k: SocketAddress, v: TcpFrontendView) -> Seq<ConfigCommandView> {
    if bm.contains_key(k) {
        Seq::empty()
    } else {
        seq![ConfigCommandView::RemoveTcpFrontend(v)]
    }
}

/// Commands that add a target tcp_frontends entry missing or different in the origin.
pub open spec fn tcp_frontends_add_bundle(am: Map<SocketAddress, TcpFrontendView>, k: SocketAddress, v: TcpFrontendView) -> Seq<ConfigCommandView> {
    if am.contains_key(k) && am[k] == v {
        Seq::empty()
    } else {
        seq![ConfigCommandView::AddTcpFrontend(v)]
    }
}

/// Applying the removal bundles of the origin and the addition bundles of
/// the target rewrites this store to the target, and touches nothing else.
#[verifier::rlimit(60)]
pub proof fn lemma_tcp_frontends_phases(
    s0: ConfigStateView,
    a_ents: Seq<(SocketAddress, TcpFrontendView)>,
    b_ents: Seq<(SocketAddress, TcpFrontendView)>,
)
    requires
        s0.tcp_frontends == assoc_map(a_ents),
        assoc_unique(a_ents),
        assoc_unique(b_ents),
        forall|i: int| 0 <= i < b_ents.len() ==> (#[trigger] b_ents[i].1).address == b_ents[i].0,
        forall|i: int| 0 <= i < a_ents.len() ==> (#[trigger] a_ents[i].1).address == a_ents[i].0,
    ensures
        spec_apply_all(
            s0,
            concat_bundles(a_ents, |k: SocketAddress, v: TcpFrontendView| tcp_frontends_rem_bundle(assoc_map(b_ents), k, v))
                + concat_bundles(b_ents, |k: SocketAddress, v: TcpFrontendView| tcp_frontends_add_bundle(assoc_map(a_ents), k, v)),
        ) == (ConfigStateView { tcp_frontends: assoc_map(b_ents), ..s0 }),
{
    let am = assoc_map(a_ents);
    let bm = assoc_map(b_ents);
    let get = |s: ConfigStateView| s.tcp_frontends;
    let set = |s: ConfigStateView, m: Map<SocketAddress, TcpFrontendView>| ConfigStateView { tcp_frontends: m, ..s };
    let rem_f = |k: SocketAddress, v: TcpFrontendView| tcp_frontends_rem_bundle(bm, k, v);
    let add_f = |k: SocketAddress, v: TcpFrontendView| tcp_frontends_add_bundle(am, k, v);
    let eff_rem = |m: Map<SocketAddress, TcpFrontendView>, k: SocketAddress, v: TcpFrontendView|
        if bm.contains_key(k) {
            m
        } else {
            m.remove(k)
        };
    let eff_add = |m: Map<SocketAddress, TcpFrontendView>, k: SocketAddress, v: TcpFrontendView| m.insert(k, v);
    let ctx_true = |m: Map<SocketAddress, TcpFrontendView>, k: SocketAddress, v: TcpFrontendView| true;
    let ctx_add = |m: Map<SocketAddress, TcpFrontendView>, k: SocketAddress, v: TcpFrontendView|
        (am.contains_key(k) && am[k] == v) ==> (m.contains_key(k) && m[k] == v);
    // ---- phase 1: removals ----
    assert forall|s: ConfigStateView, i: int|
        0 <= i < a_ents.len() && ctx_true(get(s), a_ents[i].0, a_ents[i].1) implies #[trigger] spec_apply_all(
        s,
        rem_f(a_ents[i].0, a_ents[i].1),
    ) == set(s, eff_rem(get(s), a_ents[i].0, a_ents[i].1)) by {
        let k = a_ents[i].0;
        let v = a_ents[i].1;
        if bm.contains_key(k) {
            assert(rem_f(k, v) =~= Seq::<ConfigCommandView>::empty());
            assert(spec_apply_all(s, Seq::<ConfigCommandView>::empty()) == s);
            assert(set(s, get(s)) == s);
        } else {
            assert(v.address == k);
            lemma_apply_all_one(s, ConfigCommandView::RemoveTcpFrontend(v));
            if s.tcp_frontends.contains_key(k) {
                assert(spec_apply(s, ConfigCommandView::RemoveTcpFrontend(v)).0 == set(s, s.tcp_frontends.remove(k)));
            } else {
                assert(s.tcp_frontends.remove(k) =~= s.tcp_frontends);
                assert(set(s, get(s)) == s);
            }
        }
    }
    assert forall|m: Map<SocketAddress, TcpFrontendView>, k: SocketAddress, v: TcpFrontendView, k2: SocketAddress|
        k2 != k implies #[trigger] same_at(eff_rem(m, k, v), m, k2) by {}
    assert forall|m1: Map<SocketAddress, TcpFrontendView>, m2: Map<SocketAddress, TcpFrontendView>, k: SocketAddress, v: TcpFrontendView|
        same_at(m1, m2, k) implies #[trigger] same_at(eff_rem(m1, k, v), eff_rem(m2, k, v), k) by {}
    lemma_store_bundles(s0, a_ents, rem_f, eff_rem, get, set, ctx_true);
    let p = fold_effects(am, a_ents, eff_rem);
    let s1 = set(s0, p);
    assert forall|k: SocketAddress| #[trigger] p.contains_key(k) implies am.contains_key(k)
        && bm.contains_key(k) && p[k] == am[k] by {
        lemma_assoc_contains(a_ents, k);
        if ents_has_key(a_ents, k) {
            let i = choose|i: int| 0 <= i < a_ents.len() && a_ents[i].0 == k;
            lemma_assoc_index(a_ents, i);
            assert(same_at(p, eff_rem(am, a_ents[i].0, a_ents[i].1), k));
        } else {
            assert(same_at(p, am, k));
            assert(!am.contains_key(k));
        }
    }
    assert forall|k: SocketAddress| am.contains_key(k) && bm.contains_key(k) implies #[trigger] p.contains_key(
        k,
    ) by {
        lemma_assoc_contains(a_ents, k);
        let i = choose|i: int| 0 <= i < a_ents.len() && a_ents[i].0 == k;
        lemma_assoc_index(a_ents, i);
        assert(same_at(p, eff_rem(am, a_ents[i].0, a_ents[i].1), k));
    }
    // ---- phase 2: additions ----
    assert forall|s: ConfigStateView, i: int|
        0 <= i < b_ents.len() && ctx_add(get(s), b_ents[i].0, b_ents[i].1) implies #[trigger] spec_apply_all(
        s,
        add_f(b_ents[i].0, b_ents[i].1),
    ) == set(s, eff_add(get(s), b_ents[i].0, b_ents[i].1)) by {
        let k = b_ents[i].0;
        let v = b_ents[i].1;
        if am.contains_key(k) && am[k] == v {
            assert(add_f(k, v) =~= Seq::<ConfigCommandView>::empty());
            assert(spec_apply_all(s, Seq::<ConfigCommandView>::empty()) == s);
            assert(s.tcp_frontends.contains_key(k) && s.tcp_frontends[k] == v);
            assert(s.tcp_frontends.insert(k, v) =~= s.tcp_frontends);
            assert(set(s, get(s)) == s);
        } else {
            lemma_apply_all_one(s, ConfigCommandView::AddTcpFrontend(v));
            assert(v.address == k);
            if s.tcp_frontends.contains_key(k) && s.tcp_frontends[k] == v {
                assert(s.tcp_frontends.insert(k, v) =~= s.tcp_frontends);
                assert(set(s, get(s)) == s);
            }
        }
    }
    assert forall|i: int| 0 <= i < b_ents.len() implies #[trigger] ctx_add(
        get(s1),
        b_ents[i].0,
        b_ents[i].1,
    ) by {
        let k = b_ents[i].0;
        let v = b_ents[i].1;
        if am.contains_key(k) && am[k] == v {
            lemma_assoc_index(b_ents, i);
            assert(bm.contains_key(k));
        }
    }
    assert forall|m1: Map<SocketAddress, TcpFrontendView>, m2: Map<SocketAddress, TcpFrontendView>, k: SocketAddress, v: TcpFrontendView|
        same_at(m1, m2, k) && #[trigger] ctx_add(m1, k, v) implies #[trigger] ctx_add(m2, k, v) by {}
    assert forall|m: Map<SocketAddress, TcpFrontendView>, k: SocketAddress, v: TcpFrontendView, k2: SocketAddress|
        k2 != k implies #[trigger] same_at(eff_add(m, k, v), m, k2) by {}
    assert forall|m1: Map<SocketAddress, TcpFrontendView>, m2: Map<SocketAddress, TcpFrontendView>, k: SocketAddress, v: TcpFrontendView|
        same_at(m1, m2, k) implies #[trigger] same_at(eff_add(m1, k, v), eff_add(m2, k, v), k) by {}
    lemma_store_bundles(s1, b_ents, add_f, eff_add, get, set, ctx_add);
    let q = fold_effects(p, b_ents, eff_add);
    assert forall|k: SocketAddress| #[trigger] bm.contains_key(k) implies q.contains_key(k) && q[k]
        == bm[k] by {
        lemma_assoc_contains(b_ents, k);
        let i = choose|i: int| 0 <= i < b_ents.len() && b_ents[i].0 == k;
        lemma_assoc_index(b_ents, i);
        assert(same_at(q, eff_add(p, b_ents[i].0, b_ents[i].1), k));
    }
    assert forall|k: SocketAddress| !bm.contains_key(k) implies !(#[trigger] q.contains_key(k)) by {
        lemma_assoc_contains(b_ents, k);
        assert(!ents_has_key(b_ents, k));
        assert(same_at(q, p, k));
    }
    assert(q =~= bm);
    lemma_apply_all_append(s0, concat_bundles(a_ents, rem_f), concat_bundles(b_ents, add_f));
    assert(spec_apply_all(s0, concat_bundles(a_ents, rem_f)) == s1);
    assert(spec_apply_all(s1, concat_bundles(b_ents, add_f)) == set(s1, q));
    assert(set(s1, q) == set(s0, q));
}

/// When origin and target agree on this store, both phases are empty.
pub proof fn lemma_tcp_frontends_diff_empty(a_ents: Seq<(SocketAddress, TcpFrontendView)>, b_ents: Seq<(SocketAddress, TcpFrontendView)>)
    requires
        assoc_map(a_ents) == assoc_map(b_ents),
        assoc_unique(a_ents),
        assoc_unique(b_ents),
    ensures
        concat_bundles(a_ents, |k: SocketAddress, v: TcpFrontendView| tcp_frontends_rem_bundle(assoc_map(b_ents), k, v)).len() == 0,
        concat_bundles(b_ents, |k: SocketAddress, v: TcpFrontendView| tcp_frontends_add_bundle(assoc_map(a_ents), k, v)).len() == 0,
{
    let am = assoc_map(a_ents);
    let bm = assoc_map(b_ents);
    let rem_f = |k: SocketAddress, v: TcpFrontendView| tcp_frontends_rem_bundle(bm, k, v);
    let add_f = |k: SocketAddress, v: TcpFrontendView| tcp_frontends_add_bundle(am, k, v);
    assert forall|i: int| 0 <= i < a_ents.len() implies (#[trigger] rem_f(a_ents[i].0, a_ents[i].1)).len()
        == 0 by {
        lemma_assoc_index(a_ents, i);
    }
    lemma_concat_bundles_empty(a_ents, rem_f);
    assert forall|i: int| 0 <= i < b_ents.len() implies (#[trigger] add_f(b_ents[i].0, b_ents[i].1)).len()
        == 0 by {
        lemma_assoc_index(b_ents, i);
    }
    lemma_concat_bundles_empty(b_ents, add_f);
}

/// Emits the tcp_frontends removals of the diff.
fn rem_cmds_tcp_frontends(a: &Table<SocketAddress, TcpFrontend>, b: &Table<SocketAddress, TcpFrontend>, out: &mut Vec<ConfigCommand>)
    ensures
        final(out).deep_view() == old(out).deep_view() + concat_bundles(
            a.entries.deep_view(),
            |k: SocketAddress, v: TcpFrontendView| tcp_frontends_rem_bundle(b.view_map(), k, v),
        ),
{
    let ghost f = |k: SocketAddress, v: TcpFrontendView| tcp_frontends_rem_bundle(b.view_map(), k, v);
    let ghost a_ents = a.entries.deep_view();
    proof {
        assert(a_ents.take(0) =~= Seq::<(SocketAddress, TcpFrontendView)>::empty());
        assert(out.deep_view() =~= old(out).deep_view() + concat_bundles(a_ents.take(0), f));
    }
    let mut i: usize = 0;
    while i < a.entries.len()
        invariant
            0 <= i <= a.entries@.len(),
            a_ents == a.entries.deep_view(),
            f == (|k: SocketAddress, v: TcpFrontendView| tcp_frontends_rem_bundle(b.view_map(), k, v)),
            out.deep_view() == old(out).deep_view() + concat_bundles(a_ents.take(i as int), f),
        decreases a.entries@.len() - i,
    {
        let ghost pre = out.deep_view();
        if !b.contains(&a.entries[i].0) {
            out.push(ConfigCommand::RemoveTcpFrontend(a.entries[i].1.duplicate()));
            proof {
                assert(out.deep_view() =~= pre.push(ConfigCommandView::RemoveTcpFrontend(a_ents[i as int].1)));
            }
        }
        proof {
            assert(a_ents.take(i + 1).drop_last() =~= a_ents.take(i as int));
            assert(a_ents.take(i + 1).last() == a_ents[i as int]);
            assert(concat_bundles(a_ents.take(i + 1), f) == concat_bundles(a_ents.take(i as int), f)
                + f(a_ents[i as int].0, a_ents[i as int].1));
            assert(out.deep_view() =~= old(out).deep_view() + concat_bundles(a_ents.take(i + 1), f));
        }
        i += 1;
    }
    proof {
        assert(a_ents.take(a.entries@.len() as int) =~= a_ents);
    }
}

/// Emits the tcp_frontends additions of the diff.
fn add_cmds_tcp_frontends(a: &Table<SocketAddress, TcpFrontend>, b: &Table<SocketAddress, TcpFrontend>, out: &mut Vec<ConfigCommand>)
    requires
        a.wf(),
    ensures
        final(out).deep_view() == old(out).deep_view() + concat_bundles(
            b.entries.deep_view(),
            |k: SocketAddress, v: TcpFrontendView| tcp_frontends_add_bundle(a.view_map(), k, v),
        ),
{
    let ghost f = |k: SocketAddress, v: TcpFrontendView| tcp_frontends_add_bundle(a.view_map(), k, v);
    let ghost b_ents = b.entries.deep_view();
    proof {
        assert(b_ents.take(0) =~= Seq::<(SocketAddress, TcpFrontendView)>::empty());
        assert(out.deep_view() =~= old(out).deep_view() + concat_bundles(b_ents.take(0), f));
    }
    let mut i: usize = 0;
    while i < b.entries.len()
        invariant
            0 <= i <= b.entries@.len(),
            a.wf(),
            b_ents == b.entries.deep_view(),
            f == (|k: SocketAddress, v: TcpFrontendView| tcp_frontends_add_bundle(a.view_map(), k, v)),
            out.deep_view() == old(out).deep_view() + concat_bundles(b_ents.take(i as int), f),
        decreases b.entries@.len() - i,
    {
        let ghost pre = out.deep_view();
        let same: bool = match a.get(&b.entries[i].0) {
            Option::None => false,
            Option::Some(existing) => existing.deep_eq(&b.entries[i].1),
        };
        if !same {
            out.push(ConfigCommand::AddTcpFrontend(b.entries[i].1.duplicate()));
            proof {
                assert(out.deep_view() =~= pre.push(ConfigCommandView::AddTcpFrontend(b_ents[i as int].1)));
            }
        }
        proof {
            assert(b_ents.take(i + 1).drop_last() =~= b_ents.take(i as int));
            assert(b_ents.take(i + 1).last() == b_ents[i as int]);
            assert(concat_bundles(b_ents.take(i + 1), f) == concat_bundles(b_ents.take(i as int), f)
                + f(b_ents[i as int].0, b_ents[i as int].1));
            assert(out.deep_view() =~= old(out).deep_view() + concat_bundles(b_ents.take(i + 1), f));
        }
        i += 1;
    }
    proof {
        assert(b_ents.take(b.entries@.len() as int) =~= b_ents);
    }
}

} // verus!


verus! {

/// Commands that remove a http_frontends entry absent from the target.
pub open spec fn http_frontends_rem_bundle(bm: Map<RouteKeyView, HttpFrontendView>, k: RouteKeyView, v: HttpFrontendView) -> Seq<ConfigCommandView> {
    if bm.contains_key(k) {
        Seq::empty()
    } else {
        seq![ConfigCommandView::RemoveHttpFrontend(v)]
    }
}

/// Commands that add a target http_frontends entry missing or different in the origin.
pub open spec fn http_frontends_add_bundle(am: Map<RouteKeyView, HttpFrontendView>, k: RouteKeyView, v: HttpFrontendView) -> Seq<ConfigCommandView> {
    if am.contains_key(k) && am[k] == v {
        Seq::empty()
    } else {
        seq![ConfigCommandView::AddHttpFrontend(v)]
    }
}

/// Applying the removal bundles of the origin and the addition bundles of
/// the target rewrites this store to the target, and touches nothing else.
#[verifier::rlimit(60)]
pub proof fn lemma_http_frontends_phases(
    s0: ConfigStateView,
    a_ents: Seq<(RouteKeyView, HttpFrontendView)>,
    b_ents: Seq<(RouteKeyView, HttpFrontendView)>,
)
    requires
        s0.http_frontends == assoc_map(a_ents),
        assoc_unique(a_ents),
        assoc_unique(b_ents),
        forall|i: int| 0 <= i < b_ents.len() ==> route_key_of(#[trigger] b_ents[i].1) == b_ents[i].0,
        forall|i: int| 0 <= i < a_ents.len() ==> route_key_of(#[trigger] a_ents[i].1) == a_ents[i].0,
    ensures
        spec_apply_all(
            s0,
            concat_bundles(a_ents, |k: RouteKeyView, v: HttpFrontendView| http_frontends_rem_bundle(assoc_map(b_ents), k, v))
                + concat_bundles(b_ents, |k: RouteKeyView, v: HttpFrontendView| http_frontends_add_bundle(assoc_map(a_ents), k, v)),
        ) == (ConfigStateView { http_frontends: assoc_map(b_ents), ..s0 }),
{
    let am = assoc_map(a_ents);
    let bm = assoc_map(b_ents);
    let get = |s: ConfigStateView| s.http_frontends;
    let set = |s: ConfigStateView, m: Map<RouteKeyView, HttpFrontendView>| ConfigStateView { http_frontends: m, ..s };
    let rem_f = |k: RouteKeyView, v: HttpFrontendView| http_frontends_rem_bundle(bm, k, v);
    let add_f = |k: RouteKeyView, v: HttpFrontendView| http_frontends_add_bundle(am, k, v);
    let eff_rem = |m: Map<RouteKeyView, HttpFrontendView>, k: RouteKeyView, v: HttpFrontendView|
        if bm.contains_key(k) {
            m
        } else {
            m.remove(k)
        };
    let eff_add = |m: Map<RouteKeyView, HttpFrontendView>, k: RouteKeyView, v: HttpFrontendView| m.insert(k, v);
    let ctx_true = |m: Map<RouteKeyView, HttpFrontendView>, k: RouteKeyView, v: HttpFrontendView| true;
    let ctx_add = |m: Map<RouteKeyView, HttpFrontendView>, k: RouteKeyView, v: HttpFrontendView|
        (am.contains_key(k) && am[k] == v) ==> (m.contains_key(k) && m[k] == v);
    // ---- phase 1: removals ----
    assert forall|s: ConfigStateView, i: int|
        0 <= i < a_ents.len() && ctx_true(get(s), a_ents[i].0, a_ents[i].1) implies #[trigger] spec_apply_all(
        s,
        rem_f(a_ents[i].0, a_ents[i].1),
    ) == set(s, eff_rem(get(s), a_ents[i].0, a_ents[i].1)) by {
        let k = a_ents[i].0;
        let v = a_ents[i].1;
        if bm.contains_key(k) {
            assert(rem_f(k, v) =~= Seq::<ConfigCommandView>::empty());
            assert(spec_apply_all(s, Seq::<ConfigCommandView>::empty()) == s);
            assert(set(s, get(s)) == s);
        } else {
            assert(route_key_of(v) == k);
            lemma_apply_all_one(s, ConfigCommandView::RemoveHttpFrontend(v));
            if s.http_frontends.contains_key(k) {
                assert(spec_apply(s, ConfigCommandView::RemoveHttpFrontend(v)).0 == set(s, s.http_frontends.remove(k)));
            } else {
                assert(s.http_frontends.remove(k) =~= s.http_frontends);
                assert(set(s, get(s)) == s);
            }
        }
    }
    assert forall|m: Map<RouteKeyView, HttpFrontendView>, k: RouteKeyView, v: HttpFrontendView, k2: RouteKeyView|
        k2 != k implies #[trigger] same_at(eff_rem(m, k, v), m, k2) by {}
    assert forall|m1: Map<RouteKeyView, HttpFrontendView>, m2: Map<RouteKeyView, HttpFrontendView>, k: RouteKeyView, v: HttpFrontendView|
        same_at(m1, m2, k) implies #[trigger] same_at(eff_rem(m1, k, v), eff_rem(m2, k, v), k) by {}
    lemma_store_bundles(s0, a_ents, rem_f, eff_rem, get, set, ctx_true);
    let p = fold_effects(am, a_ents, eff_rem);
    let s1 = set(s0, p);
    assert forall|k: RouteKeyView| #[trigger] p.contains_key(k) implies am.contains_key(k)
        && bm.contains_key(k) && p[k] == am[k] by {
        lemma_assoc_contains(a_ents, k);
        if ents_has_key(a_ents, k) {
            let i = choose|i: int| 0 <= i < a_ents.len() && a_ents[i].0 == k;
            lemma_assoc_index(a_ents, i);
            assert(same_at(p, eff_rem(am, a_ents[i].0, a_ents[i].1), k));
        } else {
            assert(same_at(p, am, k));
            assert(!am.contains_key(k));
        }
    }
    assert forall|k: RouteKeyView| am.contains_key(k) && bm.contains_key(k) implies #[trigger] p.contains_key(
        k,
    ) by {
        lemma_assoc_contains(a_ents, k);
        let i = choose|i: int| 0 <= i < a_ents.len() && a_ents[i].0 == k;
        lemma_assoc_index(a_ents, i);
        assert(same_at(p, eff_rem(am, a_ents[i].0, a_ents[i].1), k));
    }
    // ---- phase 2: additions ----
    assert forall|s: ConfigStateView, i: int|
        0 <= i < b_ents.len() && ctx_add(get(s), b_ents[i].0, b_ents[i].1) implies #[trigger] spec_apply_all(
        s,
        add_f(b_ents[i].0, b_ents[i].1),
    ) == set(s, eff_add(get(s), b_ents[i].0, b_ents[i].1)) by {
        let k = b_ents[i].0;
        let v = b_ents[i].1;
        if am.contains_key(k) && am[k] == v {
            assert(add_f(k, v) =~= Seq::<ConfigCommandView>::empty());
            assert(spec_apply_all(s, Seq::<ConfigCommandView>::empty()) == s);
            assert(s.http_frontends.contains_key(k) && s.http_frontends[k] == v);
            assert(s.http_frontends.insert(k, v) =~= s.http_frontends);
            assert(set(s, get(s)) == s);
        } else {
            lemma_apply_all_one(s, ConfigCommandView::AddHttpFrontend(v));
            assert(route_key_of(v) == k);
            if s.http_frontends.contains_key(k) && s.http_frontends[k] == v {
                assert(s.http_frontends.insert(k, v) =~= s.http_frontends);
                assert(set(s, get(s)) == s);
            }
        }
    }
    assert forall|i: int| 0 <= i < b_ents.len() implies #[trigger] ctx_add(
        get(s1),
        b_ents[i].0,
        b_ents[i].1,
    ) by {
        let k = b_ents[i].0;
        let v = b_ents[i].1;
        if am.contains_key(k) && am[k] == v {
            lemma_assoc_index(b_ents, i);
            assert(bm.contains_key(k));
        }
    }
    assert forall|m1: Map<RouteKeyView, HttpFrontendView>, m2: Map<RouteKeyView, HttpFrontendView>, k: RouteKeyView, v: HttpFrontendView|
        same_at(m1, m2, k) && #[trigger] ctx_add(m1, k, v) implies #[trigger] ctx_add(m2, k, v) by {}
    assert forall|m: Map<RouteKeyView, HttpFrontendView>, k: RouteKeyView, v: HttpFrontendView, k2: RouteKeyView|
        k2 != k implies #[trigger] same_at(eff_add(m, k, v), m, k2) by {}
    assert forall|m1: Map<RouteKeyView, HttpFrontendView>, m2: Map<RouteKeyView, HttpFrontendView>, k: RouteKeyView, v: HttpFrontendView|
        same_at(m1, m2, k) implies #[trigger] same_at(eff_add(m1, k, v), eff_add(m2, k, v), k) by {}
    lemma_store_bundles(s1, b_ents, add_f, eff_add, get, set, ctx_add);
    let q = fold_effects(p, b_ents, eff_add);
    assert forall|k: RouteKeyView| #[trigger] bm.contains_key(k) implies q.contains_key(k) && q[k]
        == bm[k] by {
        lemma_assoc_contains(b_ents, k);
        let i = choose|i: int| 0 <= i < b_ents.len() && b_ents[i].0 == k;
        lemma_assoc_index(b_ents, i);
        assert(same_at(q, eff_add(p, b_ents[i].0, b_ents[i].1), k));
    }
    assert forall|k: RouteKeyView| !bm.contains_key(k) implies !(#[trigger] q.contains_key(k)) by {
        lemma_assoc_contains(b_ents, k);
        assert(!ents_has_key(b_ents, k));
        assert(same_at(q, p, k));
    }
    assert(q =~= bm);
    lemma_apply_all_append(s0, concat_bundles(a_ents, rem_f), concat_bundles(b_ents, add_f));
    assert(spec_apply_all(s0, concat_bundles(a_ents, rem_f)) == s1);
    assert(spec_apply_all(s1, concat_bundles(b_ents, add_f)) == set(s1, q));
    assert(set(s1, q) == set(s0, q));
}

/// When origin and target agree on this store, both phases are empty.
pub proof fn lemma_http_frontends_diff_empty(a_ents: Seq<(RouteKeyView, HttpFrontendView)>, b_ents: Seq<(RouteKeyView, HttpFrontendView)>)
    requires
        assoc_map(a_ents) == assoc_map(b_ents),
        assoc_unique(a_ents),
        assoc_unique(b_ents),
    ensures
        concat_bundles(a_ents, |k: RouteKeyView, v: HttpFrontendView| http_frontends_rem_bundle(assoc_map(b_ents), k, v)).len() == 0,
        concat_bundles(b_ents, |k: RouteKeyView, v: HttpFrontendView| http_frontends_add_bundle(assoc_map(a_ents), k, v)).len() == 0,
{
    let am = assoc_map(a_ents);
    let bm = assoc_map(b_ents);
    let rem_f = |k: RouteKeyView, v: HttpFrontendView| http_frontends_rem_bundle(bm, k, v);
    let add_f = |k: RouteKeyView, v: HttpFrontendView| http_frontends_add_bundle(am, k, v);
    assert forall|i: int| 0 <= i < a_ents.len() implies (#[trigger] rem_f(a_ents[i].0, a_ents[i].1)).len()
        == 0 by {
        lemma_assoc_index(a_ents, i);
    }
    lemma_concat_bundles_empty(a_ents, rem_f);
    assert forall|i: int| 0 <= i < b_ents.len() implies (#[trigger] add_f(b_ents[i].0, b_ents[i].1)).len()
        == 0 by {
        lemma_assoc_index(b_ents, i);
    }
    lemma_concat_bundles_empty(b_ents, add_f);
}

/// Emits the http_frontends removals of the diff.
fn rem_cmds_http_frontends(a: &Table<RouteKey, HttpFrontend>, b: &Table<RouteKey, HttpFrontend>, out: &mut Vec<ConfigCommand>)
    ensures
        final(out).deep_view() == old(out).deep_view() + concat_bundles(
            a.entries.deep_view(),
            |k: RouteKeyView, v: HttpFrontendView| http_frontends_rem_bundle(b.view_map(), k, v),
        ),
{
    let ghost f = |k: RouteKeyView, v: HttpFrontendView| http_frontends_rem_bundle(b.view_map(), k, v);
    let ghost a_ents = a.entries.deep_view();
    proof {
        assert(a_ents.take(0) =~= Seq::<(RouteKeyView, HttpFrontendView)>::empty());
        assert(out.deep_view() =~= old(out).deep_view() + concat_bundles(a_ents.take(0), f));
    }
    let mut i: usize = 0;
    while i < a.entries.len()
        invariant
            0 <= i <= a.entries@.len(),
            a_ents == a.entries.deep_view(),
            f == (|k: RouteKeyView, v: HttpFrontendView| http_frontends_rem_bundle(b.view_map(), k, v)),
            out.deep_view() == old(out).deep_view() + concat_bundles(a_ents.take(i as int), f),
        decreases a.entries@.len() - i,
    {
        let ghost pre = out.deep_view();
        if !b.contains(&a.entries[i].0) {
            out.push(ConfigCommand::RemoveHttpFrontend(a.entries[i].1.duplicate()));
            proof {
                assert(out.deep_view() =~= pre.push(ConfigCommandView::RemoveHttpFrontend(a_ents[i as int].1)));
            }
        }
        proof {
            assert(a_ents.take(i + 1).drop_last() =~= a_ents.take(i as int));
            assert(a_ents.take(i + 1).last() == a_ents[i as int]);
            assert(concat_bundles(a_ents.take(i + 1), f) == concat_bundles(a_ents.take(i as int), f)
                + f(a_ents[i as int].0, a_ents[i as int].1));
            assert(out.deep_view() =~= old(out).deep_view() + concat_bundles(a_ents.take(i + 1), f));
        }
        i += 1;
    }
    proof {
        assert(a_ents.take(a.entries@.len() as int) =~= a_ents);
    }
}

/// Emits the http_frontends additions of the diff.
fn add_cmds_http_frontends(a: &Table<RouteKey, HttpFrontend>, b: &Table<RouteKey, HttpFrontend>, out: &mut Vec<ConfigCommand>)
    requires
        a.wf(),
    ensures
        final(out).deep_view() == old(out).deep_view() + concat_bundles(
            b.entries.deep_view(),
            |k: RouteKeyView, v: HttpFrontendView| http_frontends_add_bundle(a.view_map(), k, v),
        ),
{
    let ghost f = |k: RouteKeyView, v: HttpFrontendView| http_frontends_add_bundle(a.view_map(), k, v);
    let ghost b_ents = b.entries.deep_view();
    proof {
        assert(b_ents.take(0) =~= Seq::<(RouteKeyView, HttpFrontendView)>::empty());
        assert(out.deep_view() =~= old(out).deep_view() + concat_bundles(b_ents.take(0), f));
    }
    let mut i: usize = 0;
    while i < b.entries.len()
        invariant
            0 <= i <= b.entries@.len(),
            a.wf(),
            b_ents == b.entries.deep_view(),
            f == (|k: RouteKeyView, v: HttpFrontendView| http_frontends_add_bundle(a.view_map(), k, v)),
            out.deep_view() == old(out).deep_view() + concat_bundles(b_ents.take(i as int), f),
        decreases b.entries@.len() - i,
    {
        let ghost pre = out.deep_view();
        let same: bool = match a.get(&b.entries[i].0) {
            Option::None => false,
            Option::Some(existing) => existing.deep_eq(&b.entries[i].1),
        };
        if !same {
            out.push(ConfigCommand::AddHttpFrontend(b.entries[i].1.duplicate()));
            proof {
                assert(out.deep_view() =~= pre.push(ConfigCommandView::AddHttpFrontend(b_ents[i as int].1)));
            }
        }
        proof {
            assert(b_ents.take(i + 1).drop_last() =~= b_ents.take(i as int));
            assert(b_ents.take(i + 1).last() == b_ents[i as int]);
            assert(concat_bundles(b_ents.take(i + 1), f) == concat_bundles(b_ents.take(i as int), f)
                + f(b_ents[i as int].0, b_ents[i as int].1));
            assert(out.deep_view() =~= old(out).deep_view() + concat_bundles(b_ents.take(i + 1), f));
        }
        i += 1;
    }
    proof {
        assert(b_ents.take(b.entries@.len() as int) =~= b_ents);
    }
}

} // verus!


verus! {

/// Commands that remove a https_frontends entry absent from the target.
pub open spec fn https_frontends_rem_bundle(bm: Map<RouteKeyView, HttpFrontendView>, k: RouteKeyView, v: HttpFrontendView) -> Seq<ConfigCommandView> {
    if bm.contains_key(k) {
        Seq::empty()
    } else {
        seq![ConfigCommandView::RemoveHttpsFrontend(v)]
    }
}

/// Commands that add a target https_frontends entry missing or different in the origin.
pub open spec fn https_frontends_add_bundle(am: Map<RouteKeyView, HttpFrontendView>, k: RouteKeyView, v: HttpFrontendView) -> Seq<ConfigCommandView> {
    if am.contains_key(k) && am[k] == v {
        Seq::empty()
    } else {
        seq![ConfigCommandView::AddHttpsFrontend(v)]
    }
}

/// Applying the removal bundles of the origin and the addition bundles of
/// the target rewrites this store to the target, and touches nothing else.
#[verifier::rlimit(60)]
pub proof fn lemma_https_frontends_phases(
    s0: ConfigStateView,
    a_ents: Seq<(RouteKeyView, HttpFrontendView)>,
    b_ents: Seq<(RouteKeyView, HttpFrontendView)>,
)
    requires
        s0.https_frontends == assoc_map(a_ents),
        assoc_unique(a_ents),
        assoc_unique(b_ents),
        forall|i: int| 0 <= i < b_ents.len() ==> route_key_of(#[trigger] b_ents[i].1) == b_ents[i].0,
        forall|i: int| 0 <= i < a_ents.len() ==> route_key_of(#[trigger] a_ents[i].1) == a_ents[i].0,
    ensures
        spec_apply_all(
            s0,
            concat_bundles(a_ents, |k: RouteKeyView, v: HttpFrontendView| https_frontends_rem_bundle(assoc_map(b_ents), k, v))
                + concat_bundles(b_ents, |k: RouteKeyView, v: HttpFrontendView| https_frontends_add_bundle(assoc_map(a_ents), k, v)),
        ) == (ConfigStateView { https_frontends: assoc_map(b_ents), ..s0 }),
{
    let am = assoc_map(a_ents);
    let bm = assoc_map(b_ents);
    let get = |s: ConfigStateView| s.https_frontends;
    let set = |s: ConfigStateView, m: Map<RouteKeyView, HttpFrontendView>| ConfigStateView { https_frontends: m, ..s };
    let rem_f = |k: RouteKeyView, v: HttpFrontendView| https_frontends_rem_bundle(bm, k, v);
    let add_f = |k: RouteKeyView, v: HttpFrontendView| https_frontends_add_bundle(am, k, v);
    let eff_rem = |m: Map<RouteKeyView, HttpFrontendView>, k: RouteKeyView, v: HttpFrontendView|
        if bm.contains_key(k) {
            m
        } else {
            m.remove(k)
        };
    let eff_add = |m: Map<RouteKeyView, HttpFrontendView>, k: RouteKeyView, v: HttpFrontendView| m.insert(k, v);
    let ctx_true = |m: Map<RouteKeyView, HttpFrontendView>, k: RouteKeyView, v: HttpFrontendView| true;
    let ctx_add = |m: Map<RouteKeyView, HttpFrontendView>, k: RouteKeyView, v: HttpFrontendView|
        (am.contains_key(k) && am[k] == v) ==> (m.contains_key(k) && m[k] == v);
    // ---- phase 1: removals ----
    assert forall|s: ConfigStateView, i: int|
        0 <= i < a_ents.len() && ctx_true(get(s), a_ents[i].0, a_ents[i].1) implies #[trigger] spec_apply_all(
        s,
        rem_f(a_ents[i].0, a_ents[i].1),
    ) == set(s, eff_rem(get(s), a_ents[i].0, a_ents[i].1)) by {
        let k = a_ents[i].0;
        let v = a_ents[i].1;
        if bm.contains_key(k) {
            assert(rem_f(k, v) =~= Seq::<ConfigCommandView>::empty());
            assert(spec_apply_all(s, Seq::<ConfigCommandView>::empty()) == s);
            assert(set(s, get(s)) == s);
        } else {
            assert(route_key_of(v) == k);
            lemma_apply_all_one(s, ConfigCommandView::RemoveHttpsFrontend(v));
            if s.https_frontends.contains_key(k) {
                assert(spec_apply(s, ConfigCommandView::RemoveHttpsFrontend(v)).0 == set(s, s.https_frontends.remove(k)));
            } else {
                assert(s.https_frontends.remove(k) =~= s.https_frontends);
                assert(set(s, get(s)) == s);
            }
        }
    }
    assert forall|m: Map<RouteKeyView, HttpFrontendView>, k: RouteKeyView, v: HttpFrontendView, k2: RouteKeyView|
        k2 != k implies #[trigger] same_at(eff_rem(m, k, v), m, k2) by {}
    assert forall|m1: Map<RouteKeyView, HttpFrontendView>, m2: Map<RouteKeyView, HttpFrontendView>, k: RouteKeyView, v: HttpFrontendView|
        same_at(m1, m2, k) implies #[trigger] same_at(eff_rem(m1, k, v), eff_rem(m2, k, v), k) by {}
    lemma_store_bundles(s0, a_ents, rem_f, eff_rem, get, set, ctx_true);
    let p = fold_effects(am, a_ents, eff_rem);
    let s1 = set(s0, p);
    assert forall|k: RouteKeyView| #[trigger] p.contains_key(k) implies am.contains_key(k)
        && bm.contains_key(k) && p[k] == am[k] by {
        lemma_assoc_contains(a_ents, k);
        if ents_has_key(a_ents, k) {
            let i = choose|i: int| 0 <= i < a_ents.len() && a_ents[i].0 == k;
            lemma_assoc_index(a_ents, i);
            assert(same_at(p, eff_rem(am, a_ents[i].0, a_ents[i].1), k));
        } else {
            assert(same_at(p, am, k));
            assert(!am.contains_key(k));
        }
    }
    assert forall|k: RouteKeyView| am.contains_key(k) && bm.contains_key(k) implies #[trigger] p.contains_key(
        k,
    ) by {
        lemma_assoc_contains(a_ents, k);
        let i = choose|i: int| 0 <= i < a_ents.len() && a_ents[i].0 == k;
        lemma_assoc_index(a_ents, i);
        assert(same_at(p, eff_rem(am, a_ents[i].0, a_ents[i].1), k));
    }
    // ---- phase 2: additions ----
    assert forall|s: ConfigStateView, i: int|
        0 <= i < b_ents.len() && ctx_add(get(s), b_ents[i].0, b_ents[i].1) implies #[trigger] spec_apply_all(
        s,
        add_f(b_ents[i].0, b_ents[i].1),
    ) == set(s, eff_add(get(s), b_ents[i].0, b_ents[i].1)) by {
        let k = b_ents[i].0;
        let v = b_ents[i].1;
        if am.contains_key(k) && am[k] == v {
            assert(add_f(k, v) =~= Seq::<ConfigCommandView>::empty());
            assert(spec_apply_all(s, Seq::<ConfigCommandView>::empty()) == s);
            assert(s.https_frontends.contains_key(k) && s.https_frontends[k] == v);
            assert(s.https_frontends.insert(k, v) =~= s.https_frontends);
            assert(set(s, get(s)) == s);
        } else {
            lemma_apply_all_one(s, ConfigCommandView::AddHttpsFrontend(v));
            assert(route_key_of(v) == k);
            if s.https_frontends.contains_key(k) && s.https_frontends[k] == v {
                assert(s.https_frontends.insert(k, v) =~= s.https_frontends);
                assert(set(s, get(s)) == s);
            }
        }
    }
    assert forall|i: int| 0 <= i < b_ents.len() implies #[trigger] ctx_add(
        get(s1),
        b_ents[i].0,
        b_ents[i].1,
    ) by {
        let k = b_ents[i].0;
        let v = b_ents[i].1;
        if am.contains_key(k) && am[k] == v {
            lemma_assoc_index(b_ents, i);
            assert(bm.contains_key(k));
        }
    }
    assert forall|m1: Map<RouteKeyView, HttpFrontendView>, m2: Map<RouteKeyView, HttpFrontendView>, k: RouteKeyView, v: HttpFrontendView|
        same_at(m1, m2, k) && #[trigger] ctx_add(m1, k, v) implies #[trigger] ctx_add(m2, k, v) by {}
    assert forall|m: Map<RouteKeyView, HttpFrontendView>, k: RouteKeyView, v: HttpFrontendView, k2: RouteKeyView|
        k2 != k implies #[trigger] same_at(eff_add(m, k, v), m, k2) by {}
    assert forall|m1: Map<RouteKeyView, HttpFrontendView>, m2: Map<RouteKeyView, HttpFrontendView>, k: RouteKeyView, v: HttpFrontendView|
        same_at(m1, m2, k) implies #[trigger] same_at(eff_add(m1, k, v), eff_add(m2, k, v), k) by {}
    lemma_store_bundles(s1, b_ents, add_f, eff_add, get, set, ctx_add);
    let q = fold_effects(p, b_ents, eff_add);
    assert forall|k: RouteKeyView| #[trigger] bm.contains_key(k) implies q.contains_key(k) && q[k]
        == bm[k] by {
        lemma_assoc_contains(b_ents, k);
        let i = choose|i: int| 0 <= i < b_ents.len() && b_ents[i].0 == k;
        lemma_assoc_index(b_ents, i);
        assert(same_at(q, eff_add(p, b_ents[i].0, b_ents[i].1), k));
    }
    assert forall|k: RouteKeyView| !bm.contains_key(k) implies !(#[trigger] q.contains_key(k)) by {
        lemma_assoc_contains(b_ents, k);
        assert(!ents_has_key(b_ents, k));
        assert(same_at(q, p, k));
    }
    assert(q =~= bm);
    lemma_apply_all_append(s0, concat_bundles(a_ents, rem_f), concat_bundles(b_ents, add_f));
    assert(spec_apply_all(s0, concat_bundles(a_ents, rem_f)) == s1);
    assert(spec_apply_all(s1, concat_bundles(b_ents, add_f)) == set(s1, q));
    assert(set(s1, q) == set(s0, q));
}

/// When origin and target agree on this store, both phases are empty.
pub proof fn lemma_https_frontends_diff_empty(a_ents: Seq<(RouteKeyView, HttpFrontendView)>, b_ents: Seq<(RouteKeyView, HttpFrontendView)>)
    requires
        assoc_map(a_ents) == assoc_map(b_ents),
        assoc_unique(a_ents),
        assoc_unique(b_ents),
    ensures
        concat_bundles(a_ents, |k: RouteKeyView, v: HttpFrontendView| https_frontends_rem_bundle(assoc_map(b_ents), k, v)).len() == 0,
        concat_bundles(b_ents, |k: RouteKeyView, v: HttpFrontendView| https_frontends_add_bundle(assoc_map(a_ents), k, v)).len() == 0,
{
    let am = assoc_map(a_ents);
    let bm = assoc_map(b_ents);
    let rem_f = |k: RouteKeyView, v: HttpFrontendView| https_frontends_rem_bundle(bm, k, v);
    let add_f = |k: RouteKeyView, v: HttpFrontendView| https_frontends_add_bundle(am, k, v);
    assert forall|i: int| 0 <= i < a_ents.len() implies (#[trigger] rem_f(a_ents[i].0, a_ents[i].1)).len()
        == 0 by {
        lemma_assoc_index(a_ents, i);
    }
    lemma_concat_bundles_empty(a_ents, rem_f);
    assert forall|i: int| 0 <= i < b_ents.len() implies (#[trigger] add_f(b_ents[i].0, b_ents[i].1)).len()
        == 0 by {
        lemma_assoc_index(b_ents, i);
    }
    lemma_concat_bundles_empty(b_ents, add_f);
}

/// Emits the https_frontends removals of the diff.
fn rem_cmds_https_frontends(a: &Table<RouteKey, HttpFrontend>, b: &Table<RouteKey, HttpFrontend>, out: &mut Vec<ConfigCommand>)
    ensures
        final(out).deep_view() == old(out).deep_view() + concat_bundles(
            a.entries.deep_view(),
            |k: RouteKeyView, v: HttpFrontendView| https_frontends_rem_bundle(b.view_map(), k, v),
        ),
{
    let ghost f = |k: RouteKeyView, v: HttpFrontendView| https_frontends_rem_bundle(b.view_map(), k, v);
    let ghost a_ents = a.entries.deep_view();
    proof {
        assert(a_ents.take(0) =~= Seq::<(RouteKeyView, HttpFrontendView)>::empty());
        assert(out.deep_view() =~= old(out).deep_view() + concat_bundles(a_ents.take(0), f));
    }
    let mut i: usize = 0;
    while i < a.entries.len()
        invariant
            0 <= i <= a.entries@.len(),
            a_ents == a.entries.deep_view(),
            f == (|k: RouteKeyView, v: HttpFrontendView| https_frontends_rem_bundle(b.view_map(), k, v)),
            out.deep_view() == old(out).deep_view() + concat_bundles(a_ents.take(i as int), f),
        decreases a.entries@.len() - i,
    {
        let ghost pre = out.deep_view();
        if !b.contains(&a.entries[i].0) {
            out.push(ConfigCommand::RemoveHttpsFrontend(a.entries[i].1.duplicate()));
            proof {
                assert(out.deep_view() =~= pre.push(ConfigCommandView::RemoveHttpsFrontend(a_ents[i as int].1)));
            }
        }
        proof {
            assert(a_ents.take(i + 1).drop_last() =~= a_ents.take(i as int));
            assert(a_ents.take(i + 1).last() == a_ents[i as int]);
            assert(concat_bundles(a_ents.take(i + 1), f) == concat_bundles(a_ents.take(i as int), f)
                + f(a_ents[i as int].0, a_ents[i as int].1));
            assert(out.deep_view() =~= old(out).deep_view() + concat_bundles(a_ents.take(i + 1), f));
        }
        i += 1;
    }
    proof {
        assert(a_ents.take(a.entries@.len() as int) =~= a_ents);
    }
}

/// Emits the https_frontends additions of the diff.
fn add_cmds_https_frontends(a: &Table<RouteKey, HttpFrontend>, b: &Table<RouteKey, HttpFrontend>, out: &mut Vec<ConfigCommand>)
    requires
        a.wf(),
    ensures
        final(out).deep_view() == old(out).deep_view() + concat_bundles(
            b.entries.deep_view(),
            |k: RouteKeyView, v: HttpFrontendView| https_frontends_add_bundle(a.view_map(), k, v),
        ),
{
    let ghost f = |k: RouteKeyView, v: HttpFrontendView| https_frontends_add_bundle(a.view_map(), k, v);
    let ghost b_ents = b.entries.deep_view();
    proof {
        assert(b_ents.take(0) =~= Seq::<(RouteKeyView, HttpFrontendView)>::empty());
        assert(out.deep_view() =~= old(out).deep_view() + concat_bundles(b_ents.take(0), f));
    }
    let mut i: usize = 0;
    while i < b.entries.len()
        invariant
            0 <= i <= b.entries@.len(),
            a.wf(),
            b_ents == b.entries.deep_view(),
            f == (|k: RouteKeyView, v: HttpFrontendView| https_frontends_add_bundle(a.view_map(), k, v)),
            out.deep_view() == old(out).deep_view() + concat_bundles(b_ents.take(i as int), f),
        decreases b.entries@.len() - i,
    {
        let ghost pre = out.deep_view();
        let same: bool = match a.get(&b.entries[i].0) {
            Option::None => false,
            Option::Some(existing) => existing.deep_eq(&b.entries[i].1),
        };
        if !same {
            out.push(ConfigCommand::AddHttpsFrontend(b.entries[i].1.duplicate()));
            proof {
                assert(out.deep_view() =~= pre.push(ConfigCommandView::AddHttpsFrontend(b_ents[i as int].1)));
            }
        }
        proof {
            assert(b_ents.take(i + 1).drop_last() =~= b_ents.take(i as int));
            assert(b_ents.take(i + 1).last() == b_ents[i as int]);
            assert(concat_bundles(b_ents.take(i + 1), f) == concat_bundles(b_ents.take(i as int), f)
                + f(b_ents[i as int].0, b_ents[i as int].1));
            assert(out.deep_view() =~= old(out).deep_view() + concat_bundles(b_ents.take(i + 1), f));
        }
        i += 1;
    }
    proof {
        assert(b_ents.take(b.entries@.len() as int) =~= b_ents);
    }
}

} // verus!

verus! {

/// The command that adds a listener of the matching kind.
pub open spec fn spec_add_listener_cmd(cfg: ListenerConfigView) -> ConfigCommandView {
    match cfg {
        ListenerConfigView::Http(c) => ConfigCommandView::AddHttpListener(c),
        ListenerConfigView::Https(c) => ConfigCommandView::AddHttpsListener(c),
        ListenerConfigView::Tcp(c) => ConfigCommandView::AddTcpListener(c),
    }
}

/// Commands that remove a listener absent from the target: deactivate it
/// first when it is active, then remove it.
pub open spec fn listener_rem_bundle(
    bm: Map<SocketAddress, ListenerEntryView>,
    k: SocketAddress,
    v: ListenerEntryView,
) -> Seq<ConfigCommandView> {
    if bm.contains_key(k) {
        Seq::empty()
    } else if v.active {
        seq![
            ConfigCommandView::DeactivateListener { address: k },
            ConfigCommandView::RemoveListener { address: k },
        ]
    } else {
        seq![ConfigCommandView::RemoveListener { address: k }]
    }
}

/// Commands that carry a listener of the origin into the target: toggle
/// the activation flag where only it differs, replace the listener where
/// the configuration differs, add it where it is missing.
pub open spec fn listener_add_bundle(
    am: Map<SocketAddress, ListenerEntryView>,
    k: SocketAddress,
    t: ListenerEntryView,
) -> Seq<ConfigCommandView> {
    if am.contains_key(k) {
        let a = am[k];
        if a == t {
            Seq::empty()
        } else if a.config == t.config {
            if t.active {
                seq![ConfigCommandView::ActivateListener { address: k }]
            } else {
                seq![ConfigCommandView::DeactivateListener { address: k }]
            }
        } else {
            (if a.active {
                seq![ConfigCommandView::DeactivateListener { address: k }]
            } else {
                Seq::<ConfigCommandView>::empty()
            }) + seq![
                ConfigCommandView::RemoveListener { address: k },
                spec_add_listener_cmd(t.config),
            ] + (if t.active {
                seq![ConfigCommandView::ActivateListener { address: k }]
            } else {
                Seq::<ConfigCommandView>::empty()
            })
        }
    } else {
        seq![spec_add_listener_cmd(t.config)] + (if t.active {
            seq![ConfigCommandView::ActivateListener { address: k }]
        } else {
            Seq::<ConfigCommandView>::empty()
        })
    }
}

/// Applying the listener removal bundles and then the listener addition
/// bundles rewrites the listener store to the target, touching nothing
/// else.
#[verifier::rlimit(100)]
pub proof fn lemma_listeners_phases(
    s0: ConfigStateView,
    a_ents: Seq<(SocketAddress, ListenerEntryView)>,
    b_ents: Seq<(SocketAddress, ListenerEntryView)>,
)
    requires
        s0.listeners == assoc_map(a_ents),
        assoc_unique(a_ents),
        assoc_unique(b_ents),
        forall|i: int|
            0 <= i < b_ents.len() ==> spec_listener_address(
                (#[trigger] b_ents[i].1).config,
            ) == b_ents[i].0,
    ensures
        spec_apply_all(
            s0,
            concat_bundles(
                a_ents,
                |k: SocketAddress, v: ListenerEntryView| listener_rem_bundle(assoc_map(b_ents), k, v),
            ) + concat_bundles(
                b_ents,
                |k: SocketAddress, v: ListenerEntryView| listener_add_bundle(assoc_map(a_ents), k, v),
            ),
        ) == (ConfigStateView { listeners: assoc_map(b_ents), ..s0 }),
{
    let am = assoc_map(a_ents);
    let bm = assoc_map(b_ents);
    let get = |s: ConfigStateView| s.listeners;
    let set = |s: ConfigStateView, m: Map<SocketAddress, ListenerEntryView>|
        ConfigStateView { listeners: m, ..s };
    let rem_f = |k: SocketAddress, v: ListenerEntryView| listener_rem_bundle(bm, k, v);
    let add_f = |k: SocketAddress, v: ListenerEntryView| listener_add_bundle(am, k, v);
    let eff_rem = |m: Map<SocketAddress, ListenerEntryView>, k: SocketAddress, v: ListenerEntryView|
        if bm.contains_key(k) {
            m
        } else {
            m.remove(k)
        };
    let eff_add = |m: Map<SocketAddress, ListenerEntryView>, k: SocketAddress, v: ListenerEntryView|
        m.insert(k, v);
    let ctx_rem = |m: Map<SocketAddress, ListenerEntryView>, k: SocketAddress, v: ListenerEntryView|
        bm.contains_key(k) || (m.contains_key(k) && m[k] == v);
    let ctx_add = |m: Map<SocketAddress, ListenerEntryView>, k: SocketAddress, v: ListenerEntryView|
        (m.contains_key(k) <==> am.contains_key(k)) && (m.contains_key(k) ==> m[k] == am[k]);
    // ---- phase 1: removals ----
    assert forall|s: ConfigStateView, i: int|
        0 <= i < a_ents.len() && ctx_rem(get(s), a_ents[i].0, a_ents[i].1) implies #[trigger] spec_apply_all(
        s,
        rem_f(a_ents[i].0, a_ents[i].1),
    ) == set(s, eff_rem(get(s), a_ents[i].0, a_ents[i].1)) by {
        let k = a_ents[i].0;
        let v = a_ents[i].1;
        let m = s.listeners;
        if bm.contains_key(k) {
            assert(rem_f(k, v) =~= Seq::<ConfigCommandView>::empty());
            assert(spec_apply_all(s, Seq::<ConfigCommandView>::empty()) == s);
            assert(set(s, get(s)) == s);
        } else {
            let d = ConfigCommandView::DeactivateListener { address: k };
            let r = ConfigCommandView::RemoveListener { address: k };
            if v.active {
                assert(rem_f(k, v) =~= seq![d] + seq![r]);
                lemma_apply_all_append(s, seq![d], seq![r]);
                lemma_apply_all_one(s, d);
                let s1 = spec_apply(s, d).0;
                assert(s1 == set(s, m.insert(k, ListenerEntryView { config: m[k].config, active: false })));
                lemma_apply_all_one(s1, r);
                assert(s1.listeners.contains_key(k) && !s1.listeners[k].active);
                assert(spec_apply(s1, r).0 == set(s1, s1.listeners.remove(k)));
                assert(m.insert(k, ListenerEntryView { config: m[k].config, active: false }).remove(k)
                    =~= m.remove(k));
            } else {
                assert(rem_f(k, v) =~= seq![r]);
                lemma_apply_all_one(s, r);
                assert(m.contains_key(k) && !m[k].active);
                assert(spec_apply(s, r).0 == set(s, m.remove(k)));
            }
        }
    }
    assert forall|i: int| 0 <= i < a_ents.len() implies #[trigger] ctx_rem(
        get(s0),
        a_ents[i].0,
        a_ents[i].1,
    ) by {
        lemma_assoc_index(a_ents, i);
    }
    assert forall|m1: Map<SocketAddress, ListenerEntryView>, m2: Map<SocketAddress, ListenerEntryView>, k: SocketAddress, v: ListenerEntryView|
        same_at(m1, m2, k) && #[trigger] ctx_rem(m1, k, v) implies #[trigger] ctx_rem(m2, k, v) by {}
    assert forall|m: Map<SocketAddress, ListenerEntryView>, k: SocketAddress, v: ListenerEntryView, k2: SocketAddress|
        k2 != k implies #[trigger] same_at(eff_rem(m, k, v), m, k2) by {}
    assert forall|m1: Map<SocketAddress, ListenerEntryView>, m2: Map<SocketAddress, ListenerEntryView>, k: SocketAddress, v: ListenerEntryView|
        same_at(m1, m2, k) implies #[trigger] same_at(eff_rem(m1, k, v), eff_rem(m2, k, v), k) by {}
    lemma_store_bundles(s0, a_ents, rem_f, eff_rem, get, set, ctx_rem);
    let p = fold_effects(am, a_ents, eff_rem);
    let s1 = set(s0, p);
    assert forall|k: SocketAddress| #[trigger] p.contains_key(k) implies am.contains_key(k)
        && bm.contains_key(k) && p[k] == am[k] by {
        lemma_assoc_contains(a_ents, k);
        if ents_has_key(a_ents, k) {
            let i = choose|i: int| 0 <= i < a_ents.len() && a_ents[i].0 == k;
            lemma_assoc_index(a_ents, i);
            assert(same_at(p, eff_rem(am, a_ents[i].0, a_ents[i].1), k));
        } else {
            assert(same_at(p, am, k));
            assert(!am.contains_key(k));
        }
    }
    assert forall|k: SocketAddress| am.contains_key(k) && bm.contains_key(k) implies #[trigger] p.contains_key(
        k,
    ) by {
        lemma_assoc_contains(a_ents, k);
        let i = choose|i: int| 0 <= i < a_ents.len() && a_ents[i].0 == k;
        lemma_assoc_index(a_ents, i);
        assert(same_at(p, eff_rem(am, a_ents[i].0, a_ents[i].1), k));
    }
    // ---- phase 2: additions ----
    assert forall|s: ConfigStateView, i: int|
        0 <= i < b_ents.len() && ctx_add(get(s), b_ents[i].0, b_ents[i].1) implies #[trigger] spec_apply_all(
        s,
        add_f(b_ents[i].0, b_ents[i].1),
    ) == set(s, eff_add(get(s), b_ents[i].0, b_ents[i].1)) by {
        let k = b_ents[i].0;
        let t = b_ents[i].1;
        let m = s.listeners;
        assert(spec_listener_address(t.config) == k);
        let act = ConfigCommandView::ActivateListener { address: k };
        let dea = ConfigCommandView::DeactivateListener { address: k };
        let rem = ConfigCommandView::RemoveListener { address: k };
        let add = spec_add_listener_cmd(t.config);
        if am.contains_key(k) {
            let a = am[k];
            assert(m.contains_key(k) && m[k] == a);
            if a == t {
                assert(add_f(k, t) =~= Seq::<ConfigCommandView>::empty());
                assert(spec_apply_all(s, Seq::<ConfigCommandView>::empty()) == s);
                assert(m.insert(k, t) =~= m);
                assert(set(s, get(s)) == s);
            } else if a.config == t.config {
                assert(a.active != t.active) by {
                    if a.active == t.active {
                        assert(a == ListenerEntryView { config: a.config, active: a.active });
                    }
                }
                if t.active {
                    assert(add_f(k, t) =~= seq![act]);
                    lemma_apply_all_one(s, act);
                    assert(spec_apply(s, act).0 == set(
                        s,
                        m.insert(k, ListenerEntryView { config: m[k].config, active: true }),
                    ));
                    assert(ListenerEntryView { config: m[k].config, active: true } == t);
                } else {
                    assert(add_f(k, t) =~= seq![dea]);
                    lemma_apply_all_one(s, dea);
                    assert(spec_apply(s, dea).0 == set(
                        s,
                        m.insert(k, ListenerEntryView { config: m[k].config, active: false }),
                    ));
                    assert(ListenerEntryView { config: m[k].config, active: false } == t);
                }
            } else {
                // replace: deactivate as needed, remove, add, activate as needed
                let head: Seq<ConfigCommandView> = if a.active {
                    seq![dea]
                } else {
                    Seq::<ConfigCommandView>::empty()
                };
                let tail: Seq<ConfigCommandView> = if t.active {
                    seq![act]
                } else {
                    Seq::<ConfigCommandView>::empty()
                };
                assert(add_f(k, t) == head + seq![rem, add] + tail);
                let s_a = if a.active {
                    set(s, m.insert(k, ListenerEntryView { config: a.config, active: false }))
                } else {
                    s
                };
                lemma_apply_all_append(s, head, seq![rem, add]);
                if a.active {
                    lemma_apply_all_one(s, dea);
                    assert(spec_apply_all(s, head) == s_a);
                } else {
                    assert(head =~= Seq::<ConfigCommandView>::empty());
                    assert(spec_apply_all(s, head) == s_a);
                }
                assert(s_a.listeners.contains_key(k) && !s_a.listeners[k].active);
                assert(seq![rem, add] =~= seq![rem] + seq![add]);
                lemma_apply_all_append(s_a, seq![rem], seq![add]);
                lemma_apply_all_one(s_a, rem);
                let s_r = spec_apply(s_a, rem).0;
                assert(s_r == set(s_a, s_a.listeners.remove(k)));
                assert(!s_r.listeners.contains_key(k));
                lemma_apply_all_one(s_r, add);
                let s_d = spec_apply(s_r, add).0;
                assert(s_d == set(
                    s_r,
                    s_r.listeners.insert(k, ListenerEntryView { config: t.config, active: false }),
                ));
                lemma_apply_all_append(s, head + seq![rem, add], tail);
                assert(spec_apply_all(s, head + seq![rem, add]) == s_d);
                let final_map = if t.active {
                    s_d.listeners.insert(k, ListenerEntryView { config: t.config, active: true })
                } else {
                    s_d.listeners
                };
                if t.active {
                    lemma_apply_all_one(s_d, act);
                    assert(s_d.listeners.contains_key(k) && !s_d.listeners[k].active);
                    assert(spec_apply_all(s_d, tail) == set(s_d, final_map));
                } else {
                    assert(tail =~= Seq::<ConfigCommandView>::empty());
                }
                assert(final_map =~= m.insert(k, t)) by {
                    assert(ListenerEntryView { config: t.config, active: t.active } == t);
                }
            }
        } else {
            assert(!m.contains_key(k));
            let tail: Seq<ConfigCommandView> = if t.active {
                seq![act]
            } else {
                Seq::<ConfigCommandView>::empty()
            };
            assert(add_f(k, t) == seq![add] + tail);
            lemma_apply_all_append(s, seq![add], tail);
            lemma_apply_all_one(s, add);
            let s_d = spec_apply(s, add).0;
            assert(s_d == set(
                s,
                m.insert(k, ListenerEntryView { config: t.config, active: false }),
            ));
            let final_map = if t.active {
                s_d.listeners.insert(k, ListenerEntryView { config: t.config, active: true })
            } else {
                s_d.listeners
            };
            if t.active {
                lemma_apply_all_one(s_d, act);
                assert(s_d.listeners.contains_key(k) && !s_d.listeners[k].active);
                assert(spec_apply_all(s_d, tail) == set(s_d, final_map));
            } else {
                assert(tail =~= Seq::<ConfigCommandView>::empty());
            }
            assert(final_map =~= m.insert(k, t)) by {
                assert(ListenerEntryView { config: t.config, active: t.active } == t);
            }
        }
    }
    assert forall|i: int| 0 <= i < b_ents.len() implies #[trigger] ctx_add(
        get(s1),
        b_ents[i].0,
        b_ents[i].1,
    ) by {
        let k = b_ents[i].0;
        lemma_assoc_index(b_ents, i);
        assert(bm.contains_key(k));
        if am.contains_key(k) {
            assert(p.contains_key(k) && p[k] == am[k]);
        } else {
            if p.contains_key(k) {
                assert(am.contains_key(k));
            }
        }
    }
    assert forall|m1: Map<SocketAddress, ListenerEntryView>, m2: Map<SocketAddress, ListenerEntryView>, k: SocketAddress, v: ListenerEntryView|
        same_at(m1, m2, k) && #[trigger] ctx_add(m1, k, v) implies #[trigger] ctx_add(m2, k, v) by {}
    assert forall|m: Map<SocketAddress, ListenerEntryView>, k: SocketAddress, v: ListenerEntryView, k2: SocketAddress|
        k2 != k implies #[trigger] same_at(eff_add(m, k, v), m, k2) by {}
    assert forall|m1: Map<SocketAddress, ListenerEntryView>, m2: Map<SocketAddress, ListenerEntryView>, k: SocketAddress, v: ListenerEntryView|
        same_at(m1, m2, k) implies #[trigger] same_at(eff_add(m1, k, v), eff_add(m2, k, v), k) by {}
    lemma_store_bundles(s1, b_ents, add_f, eff_add, get, set, ctx_add);
    let q = fold_effects(p, b_ents, eff_add);
    assert forall|k: SocketAddress| #[trigger] bm.contains_key(k) implies q.contains_key(k) && q[k]
        == bm[k] by {
        lemma_assoc_contains(b_ents, k);
        let i = choose|i: int| 0 <= i < b_ents.len() && b_ents[i].0 == k;
        lemma_assoc_index(b_ents, i);
        assert(same_at(q, eff_add(p, b_ents[i].0, b_ents[i].1), k));
    }
    assert forall|k: SocketAddress| !bm.contains_key(k) implies !(#[trigger] q.contains_key(k)) by {
        lemma_assoc_contains(b_ents, k);
        assert(!ents_has_key(b_ents, k));
        assert(same_at(q, p, k));
    }
    assert(q =~= bm);
    lemma_apply_all_append(s0, concat_bundles(a_ents, rem_f), concat_bundles(b_ents, add_f));
    assert(spec_apply_all(s0, concat_bundles(a_ents, rem_f)) == s1);
    assert(spec_apply_all(s1, concat_bundles(b_ents, add_f)) == set(s1, q));
    assert(set(s1, q) == set(s0, q));
}

/// When origin and target hold the same listeners, both phases are empty.
pub proof fn lemma_listeners_diff_empty(
    a_ents: Seq<(SocketAddress, ListenerEntryView)>,
    b_ents: Seq<(SocketAddress, ListenerEntryView)>,
)
    requires
        assoc_map(a_ents) == assoc_map(b_ents),
        assoc_unique(a_ents),
        assoc_unique(b_ents),
    ensures
        concat_bundles(
            a_ents,
            |k: SocketAddress, v: ListenerEntryView| listener_rem_bundle(assoc_map(b_ents), k, v),
        ).len() == 0,
        concat_bundles(
            b_ents,
            |k: SocketAddress, v: ListenerEntryView| listener_add_bundle(assoc_map(a_ents), k, v),
        ).len() == 0,
{
    let am = assoc_map(a_ents);
    let bm = assoc_map(b_ents);
    let rem_f = |k: SocketAddress, v: ListenerEntryView| listener_rem_bundle(bm, k, v);
    let add_f = |k: SocketAddress, v: ListenerEntryView| listener_add_bundle(am, k, v);
    assert forall|i: int| 0 <= i < a_ents.len() implies (#[trigger] rem_f(a_ents[i].0, a_ents[i].1)).len()
        == 0 by {
        lemma_assoc_index(a_ents, i);
    }
    lemma_concat_bundles_empty(a_ents, rem_f);
    assert forall|i: int| 0 <= i < b_ents.len() implies (#[trigger] add_f(b_ents[i].0, b_ents[i].1)).len()
        == 0 by {
        lemma_assoc_index(b_ents, i);
    }
    lemma_concat_bundles_empty(b_ents, add_f);
}

} // verus!

verus! {

/// Builds the command that adds this listener configuration.
fn make_add_listener_cmd(cfg: &ListenerConfig) -> (r: ConfigCommand)
    ensures
        r.deep_view() == spec_add_listener_cmd(cfg.deep_view()),
{
    match cfg {
        ListenerConfig::Http(c) => ConfigCommand::AddHttpListener(c.duplicate()),
        ListenerConfig::Https(c) => ConfigCommand::AddHttpsListener(c.duplicate()),
        ListenerConfig::Tcp(c) => ConfigCommand::AddTcpListener(c.clone()),
    }
}

/// Emits the listener removals of the diff.
fn rem_cmds_listeners(
    a: &Table<SocketAddress, ListenerEntry>,
    b: &Table<SocketAddress, ListenerEntry>,
    out: &mut Vec<ConfigCommand>,
)
    ensures
        final(out).deep_view() == old(out).deep_view() + concat_bundles(
            a.entries.deep_view(),
            |k: SocketAddress, v: ListenerEntryView| listener_rem_bundle(b.view_map(), k, v),
        ),
{
    let ghost f = |k: SocketAddress, v: ListenerEntryView| listener_rem_bundle(b.view_map(), k, v);
    let ghost a_ents = a.entries.deep_view();
    proof {
        assert(a_ents.take(0) =~= Seq::<(SocketAddress, ListenerEntryView)>::empty());
        assert(out.deep_view() =~= old(out).deep_view() + concat_bundles(a_ents.take(0), f));
    }
    let mut i: usize = 0;
    while i < a.entries.len()
        invariant
            0 <= i <= a.entries@.len(),
            a_ents == a.entries.deep_view(),
            f == (|k: SocketAddress, v: ListenerEntryView| listener_rem_bundle(b.view_map(), k, v)),
            out.deep_view() == old(out).deep_view() + concat_bundles(a_ents.take(i as int), f),
        decreases a.entries@.len() - i,
    {
        let ghost pre = out.deep_view();
        if !b.contains(&a.entries[i].0) {
            let address = a.entries[i].0;
            if a.entries[i].1.active {
                out.push(ConfigCommand::DeactivateListener { address });
            }
            out.push(ConfigCommand::RemoveListener { address });
            proof {
                assert(out.deep_view() =~= pre + f(a_ents[i as int].0, a_ents[i as int].1));
            }
        }
        proof {
            assert(a_ents.take(i + 1).drop_last() =~= a_ents.take(i as int));
            assert(a_ents.take(i + 1).last() == a_ents[i as int]);
            assert(concat_bundles(a_ents.take(i + 1), f) == concat_bundles(a_ents.take(i as int), f)
                + f(a_ents[i as int].0, a_ents[i as int].1));
            assert(out.deep_view() =~= old(out).deep_view() + concat_bundles(a_ents.take(i + 1), f));
        }
        i += 1;
    }
    proof {
        assert(a_ents.take(a.entries@.len() as int) =~= a_ents);
    }
}

/// Emits the listener additions of the diff.
fn add_cmds_listeners(
    a: &Table<SocketAddress, ListenerEntry>,
    b: &Table<SocketAddress, ListenerEntry>,
    out: &mut Vec<ConfigCommand>,
)
    requires
        a.wf(),
    ensures
        final(out).deep_view() == old(out).deep_view() + concat_bundles(
            b.entries.deep_view(),
            |k: SocketAddress, v: ListenerEntryView| listener_add_bundle(a.view_map(), k, v),
        ),
{
    let ghost f = |k: SocketAddress, v: ListenerEntryView| listener_add_bundle(a.view_map(), k, v);
    let ghost b_ents = b.entries.deep_view();
    proof {
        assert(b_ents.take(0) =~= Seq::<(SocketAddress, ListenerEntryView)>::empty());
        assert(out.deep_view() =~= old(out).deep_view() + concat_bundles(b_ents.take(0), f));
    }
    let mut i: usize = 0;
    while i < b.entries.len()
        invariant
            0 <= i <= b.entries@.len(),
            a.wf(),
            b_ents == b.entries.deep_view(),
            f == (|k: SocketAddress, v: ListenerEntryView| listener_add_bundle(a.view_map(), k, v)),
            out.deep_view() == old(out).deep_view() + concat_bundles(b_ents.take(i as int), f),
        decreases b.entries@.len() - i,
    {
        let ghost pre = out.deep_view();
        let address = b.entries[i].0;
        let ghost k = b_ents[i as int].0;
        let ghost t = b_ents[i as int].1;
        match a.get(&address) {
            Option::None => {
                out.push(make_add_listener_cmd(&b.entries[i].1.config));
                if b.entries[i].1.active {
                    out.push(ConfigCommand::ActivateListener { address });
                }
                proof {
                    assert(out.deep_view() =~= pre + f(k, t));
                }
            },
            Option::Some(aent) => {
                if aent.deep_eq(&b.entries[i].1) {
                    proof {
                        assert(f(k, t) =~= Seq::<ConfigCommandView>::empty());
                        assert(out.deep_view() =~= pre + f(k, t));
                    }
                } else if aent.config.deep_eq(&b.entries[i].1.config) {
                    if b.entries[i].1.active {
                        out.push(ConfigCommand::ActivateListener { address });
                    } else {
                        out.push(ConfigCommand::DeactivateListener { address });
                    }
                    proof {
                        assert(out.deep_view() =~= pre + f(k, t));
                    }
                } else {
                    if aent.active {
                        out.push(ConfigCommand::DeactivateListener { address });
                    }
                    out.push(ConfigCommand::RemoveListener { address });
                    out.push(make_add_listener_cmd(&b.entries[i].1.config));
                    if b.entries[i].1.active {
                        out.push(ConfigCommand::ActivateListener { address });
                    }
                    proof {
                        assert(out.deep_view() =~= pre + f(k, t));
                    }
                }
            },
        }
        proof {
            assert(b_ents.take(i + 1).drop_last() =~= b_ents.take(i as int));
            assert(b_ents.take(i + 1).last() == b_ents[i as int]);
            assert(concat_bundles(b_ents.take(i + 1), f) == concat_bundles(b_ents.take(i as int), f)
                + f(b_ents[i as int].0, b_ents[i as int].1));
            assert(out.deep_view() =~= old(out).deep_view() + concat_bundles(b_ents.take(i + 1), f));
        }
        i += 1;
    }
    proof {
        assert(b_ents.take(b.entries@.len() as int) =~= b_ents);
    }
}

} // verus!

verus! {

impl ConfigState {
    /// The ordered command sequence that carries this state into `other`:
    /// applied to `self`, it produces exactly `other`.  Within each store
    /// removals come before additions; listeners are rewritten before
    /// clusters, clusters before frontends, frontends before backends and
    /// certificates.  Diffing a state against itself yields no commands.
    #[verifier::rlimit(60)]
    pub fn diff(&self, other: &ConfigState) -> (r: Vec<ConfigCommand>)
        requires
            self.wf(),
            other.wf(),
        ensures
            spec_apply_all(self@, r.deep_view()) == other@,
            self@ == other@ ==> r@.len() == 0,
    {
        let ghost s0 = self@;
        let mut out: Vec<ConfigCommand> = Vec::new();
        proof {
            assert(out.deep_view() =~= Seq::<ConfigCommandView>::empty());
        }

        // listeners
        let ghost d0 = out.deep_view();
        rem_cmds_listeners(&self.listeners, &other.listeners, &mut out);
        let ghost dr = out.deep_view();
        add_cmds_listeners(&self.listeners, &other.listeners, &mut out);
        let ghost aentsl = self.listeners.entries.deep_view();
        let ghost bentsl = other.listeners.entries.deep_view();
        let ghost segl = out.deep_view().skip(d0.len() as int);
        proof {
            assert forall|i: int| 0 <= i < bentsl.len() implies spec_listener_address(
                (#[trigger] bentsl[i].1).config,
            ) == bentsl[i].0 by {
                lemma_assoc_index(bentsl, i);
            }
            lemma_listeners_phases(s0, aentsl, bentsl);
            assert((|k: SocketAddress, v: ListenerEntryView| listener_rem_bundle(other.listeners.view_map(), k, v))
                =~= (|k: SocketAddress, v: ListenerEntryView| listener_rem_bundle(assoc_map(bentsl), k, v)));
            assert((|k: SocketAddress, v: ListenerEntryView| listener_add_bundle(self.listeners.view_map(), k, v))
                =~= (|k: SocketAddress, v: ListenerEntryView| listener_add_bundle(assoc_map(aentsl), k, v)));
            assert(segl =~= concat_bundles(
                aentsl,
                |k: SocketAddress, v: ListenerEntryView| listener_rem_bundle(assoc_map(bentsl), k, v),
            ) + concat_bundles(
                bentsl,
                |k: SocketAddress, v: ListenerEntryView| listener_add_bundle(assoc_map(aentsl), k, v),
            ));
            assert(out.deep_view() =~= d0 + segl);
            lemma_apply_all_append(s0, d0, segl);
        }
        let ghost s1 = ConfigStateView { listeners: other@.listeners, ..s0 };
        proof {
            assert(spec_apply_all(s0, out.deep_view()) == s1);
        }

        // clusters
        let ghost d1 = out.deep_view();
        rem_cmds_clusters(&self.clusters, &other.clusters, &mut out);
        add_cmds_clusters(&self.clusters, &other.clusters, &mut out);
        let ghost aentsc = self.clusters.entries.deep_view();
        let ghost bentsc = other.clusters.entries.deep_view();
        let ghost segc = out.deep_view().skip(d1.len() as int);
        proof {
            assert forall|i: int| 0 <= i < bentsc.len() implies (#[trigger] bentsc[i].1).cluster_id
                == bentsc[i].0 by {
                lemma_assoc_index(bentsc, i);
            }
            lemma_clusters_phases(s1, aentsc, bentsc);
            assert((|k: Seq<char>, v: ClusterView| cluster_rem_bundle(other.clusters.view_map(), k, v))
                =~= (|k: Seq<char>, v: ClusterView| cluster_rem_bundle(assoc_map(bentsc), k, v)));
            assert((|k: Seq<char>, v: ClusterView| cluster_add_bundle(self.clusters.view_map(), k, v))
                =~= (|k: Seq<char>, v: ClusterView| cluster_add_bundle(assoc_map(aentsc), k, v)));
            assert(segc =~= concat_bundles(
                aentsc,
                |k: Seq<char>, v: ClusterView| cluster_rem_bundle(assoc_map(bentsc), k, v),
            ) + concat_bundles(
                bentsc,
                |k: Seq<char>, v: ClusterView| cluster_add_bundle(assoc_map(aentsc), k, v),
            ));
            assert(out.deep_view() =~= d1 + segc);
            lemma_apply_all_append(s0, d1, segc);
        }
        let ghost s2 = ConfigStateView { clusters: other@.clusters, ..s1 };
        proof {
            assert(spec_apply_all(s0, out.deep_view()) == s2);
        }

        // HTTP frontends
        let ghost d2 = out.deep_view();
        rem_cmds_http_frontends(&self.http_frontends, &other.http_frontends, &mut out);
        add_cmds_http_frontends(&self.http_frontends, &other.http_frontends, &mut out);
        let ghost aentsh = self.http_frontends.entries.deep_view();
        let ghost bentsh = other.http_frontends.entries.deep_view();
        let ghost segh = out.deep_view().skip(d2.len() as int);
        proof {
            assert forall|i: int| 0 <= i < bentsh.len() implies route_key_of(#[trigger] bentsh[i].1)
                == bentsh[i].0 by {
                lemma_assoc_index(bentsh, i);
            }
            assert forall|i: int| 0 <= i < aentsh.len() implies route_key_of(#[trigger] aentsh[i].1)
                == aentsh[i].0 by {
                lemma_assoc_index(aentsh, i);
            }
            lemma_http_frontends_phases(s2, aentsh, bentsh);
            assert((|k: RouteKeyView, v: HttpFrontendView| http_frontends_rem_bundle(other.http_frontends.view_map(), k, v))
                =~= (|k: RouteKeyView, v: HttpFrontendView| http_frontends_rem_bundle(assoc_map(bentsh), k, v)));
            assert((|k: RouteKeyView, v: HttpFrontendView| http_frontends_add_bundle(self.http_frontends.view_map(), k, v))
                =~= (|k: RouteKeyView, v: HttpFrontendView| http_frontends_add_bundle(assoc_map(aentsh), k, v)));
            assert(segh =~= concat_bundles(
                aentsh,
                |k: RouteKeyView, v: HttpFrontendView| http_frontends_rem_bundle(assoc_map(bentsh), k, v),
            ) + concat_bundles(
                bentsh,
                |k: RouteKeyView, v: HttpFrontendView| http_frontends_add_bundle(assoc_map(aentsh), k, v),
            ));
            assert(out.deep_view() =~= d2 + segh);
            lemma_apply_all_append(s0, d2, segh);
        }
        let ghost s3 = ConfigStateView { http_frontends: other@.http_frontends, ..s2 };
        proof {
            assert(spec_apply_all(s0, out.deep_view()) == s3);
        }

        // HTTPS frontends
        let ghost d3 = out.deep_view();
        rem_cmds_https_frontends(&self.https_frontends, &other.https_frontends, &mut out);
        add_cmds_https_frontends(&self.https_frontends, &other.https_frontends, &mut out);
        let ghost aentss = self.https_frontends.entries.deep_view();
        let ghost bentss = other.https_frontends.entries.deep_view();
        let ghost segs = out.deep_view().skip(d3.len() as int);
        proof {
            assert forall|i: int| 0 <= i < bentss.len() implies route_key_of(#[trigger] bentss[i].1)
                == bentss[i].0 by {
                lemma_assoc_index(bentss, i);
            }
            assert forall|i: int| 0 <= i < aentss.len() implies route_key_of(#[trigger] aentss[i].1)
                == aentss[i].0 by {
                lemma_assoc_index(aentss, i);
            }
            lemma_https_frontends_phases(s3, aentss, bentss);
            assert((|k: RouteKeyView, v: HttpFrontendView| https_frontends_rem_bundle(other.https_frontends.view_map(), k, v))
                =~= (|k: RouteKeyView, v: HttpFrontendView| https_frontends_rem_bundle(assoc_map(bentss), k, v)));
            assert((|k: RouteKeyView, v: HttpFrontendView| https_frontends_add_bundle(self.https_frontends.view_map(), k, v))
                =~= (|k: RouteKeyView, v: HttpFrontendView| https_frontends_add_bundle(assoc_map(aentss), k, v)));
            assert(segs =~= concat_bundles(
                aentss,
                |k: RouteKeyView, v: HttpFrontendView| https_frontends_rem_bundle(assoc_map(bentss), k, v),
            ) + concat_bundles(
                bentss,
                |k: RouteKeyView, v: HttpFrontendView| https_frontends_add_bundle(assoc_map(aentss), k, v),
            ));
            assert(out.deep_view() =~= d3 + segs);
            lemma_apply_all_append(s0, d3, segs);
        }
        let ghost s4 = ConfigStateView { https_frontends: other@.https_frontends, ..s3 };
        proof {
            assert(spec_apply_all(s0, out.deep_view()) == s4);
        }

        // TCP frontends
        let ghost d4 = out.deep_view();
        rem_cmds_tcp_frontends(&self.tcp_frontends, &other.tcp_frontends, &mut out);
        add_cmds_tcp_frontends(&self.tcp_frontends, &other.tcp_frontends, &mut out);
        let ghost aentst = self.tcp_frontends.entries.deep_view();
        let ghost bentst = other.tcp_frontends.entries.deep_view();
        let ghost segt = out.deep_view().skip(d4.len() as int);
        proof {
            assert forall|i: int| 0 <= i < bentst.len() implies (#[trigger] bentst[i].1).address
                == bentst[i].0 by {
                lemma_assoc_index(bentst, i);
            }
            assert forall|i: int| 0 <= i < aentst.len() implies (#[trigger] aentst[i].1).address
                == aentst[i].0 by {
                lemma_assoc_index(aentst, i);
            }
            lemma_tcp_frontends_phases(s4, aentst, bentst);
            assert((|k: SocketAddress, v: TcpFrontendView| tcp_frontends_rem_bundle(other.tcp_frontends.view_map(), k, v))
                =~= (|k: SocketAddress, v: TcpFrontendView| tcp_frontends_rem_bundle(assoc_map(bentst), k, v)));
            assert((|k: SocketAddress, v: TcpFrontendView| tcp_frontends_add_bundle(self.tcp_frontends.view_map(), k, v))
                =~= (|k: SocketAddress, v: TcpFrontendView| tcp_frontends_add_bundle(assoc_map(aentst), k, v)));
            assert(segt =~= concat_bundles(
                aentst,
                |k: SocketAddress, v: TcpFrontendView| tcp_frontends_rem_bundle(assoc_map(bentst), k, v),
            ) + concat_bundles(
                bentst,
                |k: SocketAddress, v: TcpFrontendView| tcp_frontends_add_bundle(assoc_map(aentst), k, v),
            ));
            assert(out.deep_view() =~= d4 + segt);
            lemma_apply_all_append(s0, d4, segt);
        }
        let ghost s5 = ConfigStateView { tcp_frontends: other@.tcp_frontends, ..s4 };
        proof {
            assert(spec_apply_all(s0, out.deep_view()) == s5);
        }

        // backends
        let ghost d5 = out.deep_view();
        rem_cmds_backends(&self.backends, &other.backends, &mut out);
        add_cmds_backends(&self.backends, &other.backends, &mut out);
        let ghost aentsb = self.backends.entries.deep_view();
        let ghost bentsb = other.backends.entries.deep_view();
        let ghost segb = out.deep_view().skip(d5.len() as int);
        proof {
            assert forall|i: int| 0 <= i < bentsb.len() implies backend_key_of(
                #[trigger] bentsb[i].1,
            ) == bentsb[i].0 by {
                lemma_assoc_index(bentsb, i);
                assert(other@.backends == assoc_map(bentsb));
                assert(other@.backends.contains_key(bentsb[i].0));
            }
            lemma_backends_phases(s5, aentsb, bentsb);
            assert((|k: BackendKeyView, v: BackendView| backends_rem_bundle(other.backends.view_map(), k, v))
                =~= (|k: BackendKeyView, v: BackendView| backends_rem_bundle(assoc_map(bentsb), k, v)));
            assert((|k: BackendKeyView, v: BackendView| backends_add_bundle(self.backends.view_map(), k, v))
                =~= (|k: BackendKeyView, v: BackendView| backends_add_bundle(assoc_map(aentsb), k, v)));
            assert(segb =~= concat_bundles(
                aentsb,
                |k: BackendKeyView, v: BackendView| backends_rem_bundle(assoc_map(bentsb), k, v),
            ) + concat_bundles(
                bentsb,
                |k: BackendKeyView, v: BackendView| backends_add_bundle(assoc_map(aentsb), k, v),
            ));
            assert(out.deep_view() =~= d5 + segb);
            lemma_apply_all_append(s0, d5, segb);
        }
        let ghost s6 = ConfigStateView { backends: other@.backends, ..s5 };
        proof {
            assert(spec_apply_all(s0, out.deep_view()) == s6);
        }

        // certificates
        let ghost d6 = out.deep_view();
        rem_cmds_certificates(&self.certificates, &other.certificates, &mut out);
        add_cmds_certificates(&self.certificates, &other.certificates, &mut out);
        let ghost aentsx = self.certificates.entries.deep_view();
        let ghost bentsx = other.certificates.entries.deep_view();
        let ghost segx = out.deep_view().skip(d6.len() as int);
        proof {
            lemma_certificates_phases(s6, aentsx, bentsx);
            assert((|k: CertificateKeyView, v: CertificateView| certificates_rem_bundle(other.certificates.view_map(), k, v))
                =~= (|k: CertificateKeyView, v: CertificateView| certificates_rem_bundle(assoc_map(bentsx), k, v)));
            assert((|k: CertificateKeyView, v: CertificateView| certificates_add_bundle(self.certificates.view_map(), k, v))
                =~= (|k: CertificateKeyView, v: CertificateView| certificates_add_bundle(assoc_map(aentsx), k, v)));
            assert(segx =~= concat_bundles(
                aentsx,
                |k: CertificateKeyView, v: CertificateView| certificates_rem_bundle(assoc_map(bentsx), k, v),
            ) + concat_bundles(
                bentsx,
                |k: CertificateKeyView, v: CertificateView| certificates_add_bundle(assoc_map(aentsx), k, v),
            ));
            assert(out.deep_view() =~= d6 + segx);
            lemma_apply_all_append(s0, d6, segx);
            let s7 = ConfigStateView { certificates: other@.certificates, ..s6 };
            assert(spec_apply_all(s0, out.deep_view()) == s7);
            assert(s7 == other@);
        }

        proof {
            if self@ == other@ {
                lemma_listeners_diff_empty(aentsl, bentsl);
                lemma_clusters_diff_empty(aentsc, bentsc);
                lemma_http_frontends_diff_empty(aentsh, bentsh);
                lemma_https_frontends_diff_empty(aentss, bentss);
                lemma_tcp_frontends_diff_empty(aentst, bentst);
                lemma_backends_diff_empty(aentsb, bentsb);
                lemma_certificates_diff_empty(aentsx, bentsx);
                assert(out.deep_view().len() == 0);
                assert(out@.len() == out.deep_view().len());
            }
        }
        out
    }
}

} // verus!
