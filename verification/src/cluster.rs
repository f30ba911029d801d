//! The cluster/endpoint model: a mapping from cluster key to a set of
//! endpoints, written rarely by the control plane and read on the packet
//! path. Writers replace whole clusters, so readers always observe a
//! coherent snapshot.

use vstd::prelude::*;

use crate::endpoint::{endpoints_view, Endpoint, EndpointView};

verus! {

/// One named cluster and its endpoints. The key `None` is the default
/// cluster, used when no control plane names clusters.
pub struct ClusterEntry {
    pub key: Option<String>,
    pub endpoints: Vec<Endpoint>,
}

/// A cluster key as a mathematical value.
pub open spec fn key_view(k: Option<String>) -> Option<Seq<char>> {
    match k {
        Some(s) => Some(s@),
        None => None,
    }
}

/// The endpoints of the first cluster with the given key, if any.
pub open spec fn lookup(s: Seq<ClusterEntry>, k: Option<Seq<char>>) -> Option<Seq<EndpointView>>
    decreases s.len(),
{
    if s.len() == 0 {
        None
    } else if key_view(s[0].key) == k {
        Some(endpoints_view(s[0].endpoints@))
    } else {
        lookup(s.drop_first(), k)
    }
}

/// Every cluster key occurs at most once.
pub open spec fn keys_unique(s: Seq<ClusterEntry>) -> bool {
    forall|i: int, j: int|
        0 <= i < j < s.len() ==> key_view(s[i].key) != key_view(s[j].key)
}

/// Endpoint addresses within one cluster are unique.
pub open spec fn addresses_unique(eps: Seq<Endpoint>) -> bool {
    forall|i: int, j: int| 0 <= i < j < eps.len() ==> eps[i].address != eps[j].address
}

/// All endpoints of all clusters, in entry order.
pub open spec fn all_endpoints(s: Seq<ClusterEntry>) -> Seq<EndpointView>
    decreases s.len(),
{
    if s.len() == 0 {
        Seq::empty()
    } else {
        endpoints_view(s[0].endpoints@) + all_endpoints(s.drop_first())
    }
}

/// Mapping from cluster key to endpoints, guarded by its owner for
/// concurrent read and occasional write.
pub struct ClusterMap {
    pub entries: Vec<ClusterEntry>,
}

impl ClusterMap {
    /// Well-formed: unique keys, and unique addresses within each cluster.
    pub open spec fn wf(self) -> bool {
        &&& keys_unique(self.entries@)
        &&& forall|i: int|
            0 <= i < self.entries@.len() ==> addresses_unique(#[trigger] self.entries@[i].endpoints@)
    }

    /// The map value: what `lookup` gives for each key.
    pub open spec fn spec_lookup(self, k: Option<Seq<char>>) -> Option<Seq<EndpointView>> {
        lookup(self.entries@, k)
    }

    /// An empty map.
    pub fn new() -> (r: ClusterMap)
        ensures
            r.wf(),
            r.entries@.len() == 0,
            forall|k: Option<Seq<char>>| r.spec_lookup(k) is None,
    {
        ClusterMap { entries: Vec::new() }
    }

    /// A map holding only the default cluster.
    pub fn new_default(endpoints: Vec<Endpoint>) -> (r: ClusterMap)
        requires
            addresses_unique(endpoints@),
        ensures
            r.wf(),
            r.spec_lookup(None) == Some(endpoints_view(endpoints@)),
            forall|k: Option<Seq<char>>| k is Some ==> r.spec_lookup(k) is None,
            all_endpoints(r.entries@) == endpoints_view(endpoints@),
    {
        let mut entries: Vec<ClusterEntry> = Vec::new();
        entries.push(ClusterEntry { key: None, endpoints });
        let m = ClusterMap { entries };
        proof {
            lemma_all_endpoints_single(m.entries@);
            assert(m.entries@.drop_first() =~= Seq::<ClusterEntry>::empty());
            assert forall|k: Option<Seq<char>>| k is Some implies m.spec_lookup(k) is None by {
                assert(lookup(m.entries@.drop_first(), k) is None);
            }
        }
        m
    }

    /// Which entry holds the key, if any.
    fn find_index(&self, key: &Option<String>) -> (r: Option<usize>)
        ensures
            match r {
                Some(i) => i < self.entries@.len() && key_view(self.entries@[i as int].key)
                    == key_view(*key),
                None => forall|i: int|
                    0 <= i < self.entries@.len() ==> key_view(#[trigger] self.entries@[i].key)
                        != key_view(*key),
            },
    {
        let n = self.entries.len();
        let mut i: usize = 0;
        while i < n
            invariant
                0 <= i <= n,
                n == self.entries@.len(),
                forall|j: int|
                    0 <= j < i ==> key_view(#[trigger] self.entries@[j].key) != key_view(*key),
            decreases n - i,
        {
            let hit = match (&self.entries[i].key, key) {
                (Some(a), Some(b)) => a.eq(b),
                (None, None) => true,
                _ => false,
            };
            if hit {
                return Some(i);
            }
            i = i + 1;
        }
        None
    }

    /// Replaces the cluster named `key` atomically, creating it if absent.
    pub fn upsert(&mut self, key: Option<String>, endpoints: Vec<Endpoint>)
        requires
            old(self).wf(),
            addresses_unique(endpoints@),
        ensures
            final(self).wf(),
            final(self).spec_lookup(key_view(key)) == Some(endpoints_view(endpoints@)),
            forall|k: Option<Seq<char>>|
                k != key_view(key) ==> final(self).spec_lookup(k) == old(self).spec_lookup(k),
    {
        let ghost pre = self.entries@;
        match self.find_index(&key) {
            Some(i) => {
                self.entries[i].endpoints = endpoints;
                proof {
                    assert(self.entries@ == pre.update(i as int, self.entries@[i as int]));
                    assert(key_view(self.entries@[i as int].key) == key_view(key));
                    lemma_lookup_update(pre, i as int, self.entries@[i as int]);
                }
            },
            None => {
                let ghost entry_key = key_view(key);
                self.entries.push(ClusterEntry { key, endpoints });
                proof {
                    lemma_lookup_push(pre, self.entries@.last());
                }
            },
        }
    }

    /// Replaces the default cluster's endpoints atomically.
    pub fn insert_default(&mut self, endpoints: Vec<Endpoint>)
        requires
            old(self).wf(),
            addresses_unique(endpoints@),
        ensures
            final(self).wf(),
            final(self).spec_lookup(None) == Some(endpoints_view(endpoints@)),
            forall|k: Option<Seq<char>>|
                k is Some ==> final(self).spec_lookup(k) == old(self).spec_lookup(k),
    {
        self.upsert(None, endpoints);
    }

    /// Removes the cluster named `key`; forwards to its endpoints are
    /// thereafter suppressed, while in-flight sessions are left alone.
    pub fn remove(&mut self, key: &Option<String>)
        requires
            old(self).wf(),
        ensures
            final(self).wf(),
            final(self).spec_lookup(key_view(*key)) is None,
            forall|k: Option<Seq<char>>|
                k != key_view(*key) ==> final(self).spec_lookup(k) == old(self).spec_lookup(k),
    {
        let ghost pre = self.entries@;
        match self.find_index(key) {
            Some(i) => {
                self.entries.remove(i);
                proof {
                    lemma_lookup_remove(pre, i as int);
                    lemma_lookup_absent(self.entries@, key_view(*key));
                }
            },
            None => {
                proof {
                    lemma_lookup_absent(self.entries@, key_view(*key));
                }
            },
        }
    }

    /// The endpoints of the cluster named `key`, as a snapshot.
    pub fn get(&self, key: &Option<String>) -> (r: Option<Vec<Endpoint>>)
        requires
            self.wf(),
        ensures
            match r {
                Some(eps) => self.spec_lookup(key_view(*key)) == Some(endpoints_view(eps@)),
                None => self.spec_lookup(key_view(*key)) is None,
            },
    {
        match self.find_index(key) {
            Some(i) => {
                proof {
                    lemma_lookup_found(self.entries@, i as int);
                }
                Some(clone_endpoints(&self.entries[i].endpoints))
            },
            None => {
                proof {
                    lemma_lookup_absent(self.entries@, key_view(*key));
                }
                None
            },
        }
    }

    /// A snapshot of every endpoint of every cluster, in entry order.
    pub fn endpoints(&self) -> (r: Vec<Endpoint>)
        ensures
            endpoints_view(r@) == all_endpoints(self.entries@),
    {
        let n = self.entries.len();
        let mut r: Vec<Endpoint> = Vec::new();
        let mut i: usize = 0;
        while i < n
            invariant
                0 <= i <= n,
                n == self.entries@.len(),
                endpoints_view(r@) =~= all_endpoints(self.entries@.subrange(0, i as int)),
            decreases n - i,
        {
            let ghost rv = endpoints_view(r@);
            let cluster = &self.entries[i];
            let m = cluster.endpoints.len();
            let mut j: usize = 0;
            while j < m
                invariant
                    0 <= j <= m,
                    i < self.entries@.len(),
                    m == self.entries@[i as int].endpoints@.len(),
                    *cluster == self.entries@[i as int],
                    endpoints_view(r@) =~= rv + endpoints_view(cluster.endpoints@).subrange(
                        0,
                        j as int,
                    ),
                decreases m - j,
            {
                let dup = cluster.endpoints[j].duplicate();
                let ghost rv2 = endpoints_view(r@);
                proof {
                    assert(dup@ == endpoints_view(cluster.endpoints@)[j as int]);
                }
                r.push(dup);
                proof {
                    assert(endpoints_view(r@) =~= rv2.push(dup@));
                }
                j = j + 1;
            }
            proof {
                lemma_all_endpoints_step(self.entries@, i as int);
                assert(endpoints_view(cluster.endpoints@).subrange(0, m as int) =~= endpoints_view(
                    cluster.endpoints@,
                ));
                assert(endpoints_view(r@) =~= all_endpoints(
                    self.entries@.subrange(0, i as int + 1),
                ));
            }
            i = i + 1;
        }
        proof {
            assert(self.entries@.subrange(0, n as int) =~= self.entries@);
        }
        r
    }

    /// True iff any cluster is non-empty; this is the readiness predicate.
    pub fn has_endpoints(&self) -> (r: bool)
        ensures
            r == exists|i: int|
                0 <= i < self.entries@.len() && #[trigger] self.entries@[i].endpoints@.len() > 0,
    {
        let n = self.entries.len();
        let mut i: usize = 0;
        while i < n
            invariant
                0 <= i <= n,
                n == self.entries@.len(),
                forall|j: int| 0 <= j < i ==> #[trigger] self.entries@[j].endpoints@.len() == 0,
            decreases n - i,
        {
            if self.entries[i].endpoints.len() > 0 {
                return true;
            }
            i = i + 1;
        }
        false
    }
}

/// A snapshot copy of a list of endpoints, denoting the same endpoints.
pub fn clone_endpoints(v: &Vec<Endpoint>) -> (r: Vec<Endpoint>)
    ensures
        endpoints_view(r@) == endpoints_view(v@),
        r@.len() == v@.len(),
{
    let n = v.len();
    let mut r: Vec<Endpoint> = Vec::new();
    let mut i: usize = 0;
    while i < n
        invariant
            0 <= i <= n,
            n == v@.len(),
            r@.len() == i,
            forall|j: int| 0 <= j < i ==> r@[j]@ == #[trigger] v@[j]@,
        decreases n - i,
    {
        r.push(v[i].duplicate());
        i = i + 1;
    }
    proof {
        assert(endpoints_view(r@) =~= endpoints_view(v@));
    }
    r
}

/// Looking up the key of entry `i` finds entry `i`, when keys are unique.
proof fn lemma_lookup_found(s: Seq<ClusterEntry>, i: int)
    requires
        keys_unique(s),
        0 <= i < s.len(),
    ensures
        lookup(s, key_view(s[i].key)) == Some(endpoints_view(s[i].endpoints@)),
    decreases s.len(),
{
    if i > 0 {
        assert(key_view(s[0].key) != key_view(s[i].key));
        lemma_lookup_found(s.drop_first(), i - 1);
        assert(s.drop_first()[i - 1] == s[i]);
    }
}

/// A key no entry holds looks up to nothing.
proof fn lemma_lookup_absent(s: Seq<ClusterEntry>, k: Option<Seq<char>>)
    requires
        forall|i: int| 0 <= i < s.len() ==> key_view(#[trigger] s[i].key) != k,
    ensures
        lookup(s, k) is None,
    decreases s.len(),
{
    if s.len() > 0 {
        lemma_lookup_absent(s.drop_first(), k);
    }
}

/// Replacing entry `i` changes only its own key's lookup.
proof fn lemma_lookup_update(s: Seq<ClusterEntry>, i: int, e: ClusterEntry)
    requires
        keys_unique(s),
        0 <= i < s.len(),
        key_view(e.key) == key_view(s[i].key),
    ensures
        keys_unique(s.update(i, e)),
        lookup(s.update(i, e), key_view(e.key)) == Some(endpoints_view(e.endpoints@)),
        forall|k: Option<Seq<char>>|
            k != key_view(e.key) ==> lookup(s.update(i, e), k) == lookup(s, k),
    decreases s.len(),
{
    let t = s.update(i, e);
    assert forall|a: int, b: int| 0 <= a < b < t.len() implies key_view(t[a].key) != key_view(
        t[b].key,
    ) by {
        assert(key_view(t[a].key) == key_view(s[a].key));
        assert(key_view(t[b].key) == key_view(s[b].key));
    }
    if i == 0 {
        assert(t[0] == e);
        assert forall|k: Option<Seq<char>>| k != key_view(e.key) implies lookup(t, k) == lookup(
            s,
            k,
        ) by {
            assert(t.drop_first() =~= s.drop_first());
        }
    } else {
        assert(t[0] == s[0]);
        assert(t.drop_first() =~= s.drop_first().update(i - 1, e));
        assert(key_view(s[0].key) != key_view(e.key));
        lemma_lookup_update(s.drop_first(), i - 1, e);
        assert(lookup(t, key_view(e.key)) == Some(endpoints_view(e.endpoints@)));
        assert forall|k: Option<Seq<char>>| k != key_view(e.key) implies lookup(t, k) == lookup(
            s,
            k,
        ) by {
            assert(lookup(t.drop_first(), k) == lookup(s.drop_first(), k));
        }
    }
}

/// Appending an entry with a fresh key adds exactly that key's lookup.
proof fn lemma_lookup_push(s: Seq<ClusterEntry>, e: ClusterEntry)
    requires
        keys_unique(s),
        forall|i: int| 0 <= i < s.len() ==> key_view(#[trigger] s[i].key) != key_view(e.key),
    ensures
        keys_unique(s.push(e)),
        lookup(s.push(e), key_view(e.key)) == Some(endpoints_view(e.endpoints@)),
        forall|k: Option<Seq<char>>|
            k != key_view(e.key) ==> lookup(s.push(e), k) == lookup(s, k),
    decreases s.len(),
{
    let t = s.push(e);
    assert forall|a: int, b: int| 0 <= a < b < t.len() implies key_view(t[a].key) != key_view(
        t[b].key,
    ) by {
        if b < s.len() {
            assert(t[a] == s[a] && t[b] == s[b]);
        } else {
            assert(t[a] == s[a] && t[b] == e);
        }
    }
    if s.len() == 0 {
        assert(t[0] == e);
        assert(t.drop_first() =~= Seq::<ClusterEntry>::empty());
        assert forall|k: Option<Seq<char>>| k != key_view(e.key) implies lookup(t, k) == lookup(
            s,
            k,
        ) by {
            assert(lookup(t.drop_first(), k) is None);
            assert(lookup(s, k) is None);
        }
    } else {
        assert(t[0] == s[0]);
        assert(t.drop_first() =~= s.drop_first().push(e));
        lemma_lookup_push(s.drop_first(), e);
        assert(lookup(t, key_view(e.key)) == Some(endpoints_view(e.endpoints@)));
        assert forall|k: Option<Seq<char>>| k != key_view(e.key) implies lookup(t, k) == lookup(
            s,
            k,
        ) by {
            assert(lookup(t.drop_first(), k) == lookup(s.drop_first(), k));
        }
    }
}

/// Removing entry `i` erases exactly its own key's lookup.
proof fn lemma_lookup_remove(s: Seq<ClusterEntry>, i: int)
    requires
        keys_unique(s),
        0 <= i < s.len(),
    ensures
        keys_unique(s.remove(i)),
        forall|j: int|
            0 <= j < s.remove(i).len() ==> key_view(#[trigger] s.remove(i)[j].key) != key_view(
                s[i].key,
            ),
        forall|k: Option<Seq<char>>|
            k != key_view(s[i].key) ==> lookup(s.remove(i), k) == lookup(s, k),
    decreases s.len(),
{
    let t = s.remove(i);
    assert forall|a: int, b: int| 0 <= a < b < t.len() implies key_view(t[a].key) != key_view(
        t[b].key,
    ) by {
        let a0 = if a < i {
            a
        } else {
            a + 1
        };
        let b0 = if b < i {
            b
        } else {
            b + 1
        };
        assert(t[a] == s[a0] && t[b] == s[b0]);
    }
    assert forall|j: int| 0 <= j < t.len() implies key_view(t[j].key) != key_view(s[i].key) by {
        let j0 = if j < i {
            j
        } else {
            j + 1
        };
        assert(t[j] == s[j0]);
    }
    if i == 0 {
        assert(t =~= s.drop_first());
        assert forall|k: Option<Seq<char>>| k != key_view(s[0].key) implies lookup(t, k) == lookup(
            s,
            k,
        ) by {}
    } else {
        assert(t[0] == s[0]);
        assert(t.drop_first() =~= s.drop_first().remove(i - 1));
        lemma_lookup_remove(s.drop_first(), i - 1);
        assert(s.drop_first()[i - 1] == s[i]);
        assert forall|k: Option<Seq<char>>| k != key_view(s[i].key) implies lookup(t, k) == lookup(
            s,
            k,
        ) by {
            assert(lookup(t.drop_first(), k) == lookup(s.drop_first(), k));
        }
    }
}

/// `all_endpoints` over a prefix grows by one cluster at a time.
proof fn lemma_all_endpoints_step(s: Seq<ClusterEntry>, i: int)
    requires
        0 <= i < s.len(),
    ensures
        all_endpoints(s.subrange(0, i + 1)) == all_endpoints(s.subrange(0, i)) + endpoints_view(
            s[i].endpoints@,
        ),
    decreases i,
{
    let a = s.subrange(0, i + 1);
    let b = s.subrange(0, i);
    if i == 0 {
        assert(a.drop_first() =~= Seq::<ClusterEntry>::empty());
        assert(all_endpoints(a.drop_first()) == Seq::<EndpointView>::empty());
        assert(a[0] == s[0]);
        assert(all_endpoints(a) =~= endpoints_view(s[0].endpoints@));
        assert(b =~= Seq::<ClusterEntry>::empty());
        assert(all_endpoints(b) == Seq::<EndpointView>::empty());
        assert(all_endpoints(a) =~= all_endpoints(b) + endpoints_view(s[0].endpoints@));
    } else {
        lemma_all_endpoints_step(s.drop_first(), i - 1);
        assert(a[0] == s[0] && b[0] == s[0]);
        assert(a.drop_first() =~= s.drop_first().subrange(0, i));
        assert(b.drop_first() =~= s.drop_first().subrange(0, i - 1));
        assert(s.drop_first()[i - 1] == s[i]);
        assert(all_endpoints(a) =~= all_endpoints(b) + endpoints_view(s[i].endpoints@));
    }
}

/// A one-entry map's endpoints are that entry's endpoints.
proof fn lemma_all_endpoints_single(s: Seq<ClusterEntry>)
    requires
        s.len() == 1,
    ensures
        all_endpoints(s) == endpoints_view(s[0].endpoints@),
{
    assert(s.drop_first() =~= Seq::<ClusterEntry>::empty());
    assert(all_endpoints(s.drop_first()) == Seq::<EndpointView>::empty());
    assert(all_endpoints(s) =~= endpoints_view(s[0].endpoints@));
}

} // verus!
