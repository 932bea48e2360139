//! The registry store: the authoritative in-memory mapping from service
//! identity to descriptor.
//!
//! The store's model is a finite map keyed by identity; the invariant —
//! at most one descriptor per distinct identity at any time — is kept by
//! every operation. Lookup is exact-key only, and listing answers a
//! point-in-time copy of every entry. The store itself holds no lock:
//! the caller that shares one store across request handlers guards it
//! with a single exclusive guard around every operation (see the API
//! module for how a failed guard is reported).

use crate::model::Service;
use crate::model::ServiceMethod;
use crate::model::ServiceMethodArgument;
use crate::model::ServiceName;
use crate::model::ServiceNameView;
use crate::model::ServiceView;
use crate::model::Endpoint;
use crate::model::Type;
use crate::model::name_eq;
use crate::version::Version;
use vstd::prelude::*;
use vstd::string::StringExecFns;

verus! {

/// The map a sequence of entries stands for, later entries shadowing
/// earlier ones of the same identity (no shadowing ever arises under
/// the store's invariant).
pub open spec fn seq_to_map(s: Seq<ServiceView>) -> Map<ServiceNameView, ServiceView>
    decreases s.len(),
{
    if s.len() == 0 {
        Map::empty()
    } else {
        seq_to_map(s.drop_last()).insert(s.last().name, s.last())
    }
}

/// Pairwise-distinct identities: the store's uniqueness invariant.
pub open spec fn distinct_names(s: Seq<ServiceView>) -> bool {
    forall|i: int, j: int|
        #![trigger s[i].name, s[j].name]
        0 <= i < j < s.len() ==> s[i].name != s[j].name
}

/// What a complete listing of a store with contents `m` looks like:
/// every listed descriptor is stored under its own identity, every
/// stored identity is listed, and no identity is listed twice.
pub open spec fn spec_listing(list: Seq<ServiceView>, m: Map<ServiceNameView, ServiceView>) -> bool {
    &&& forall|i: int|
        0 <= i < list.len() ==> m.contains_key(#[trigger] list[i].name) && m[list[i].name]
            == list[i]
    &&& forall|k: ServiceNameView|
        #[trigger] m.contains_key(k) ==> exists|i: int|
            0 <= i < list.len() && #[trigger] list[i].name == k
    &&& forall|i: int, j: int|
        #![trigger list[i].name, list[j].name]
        0 <= i < j < list.len() ==> list[i].name != list[j].name
}

/// Listing-completeness law: a complete, duplicate-free listing of a
/// store holds exactly as many descriptors as the store holds
/// identities — none omitted, none repeated.
pub proof fn lemma_listing_length(list: Seq<ServiceView>, m: Map<ServiceNameView, ServiceView>)
    requires
        spec_listing(list, m),
    ensures
        m.dom().finite(),
        m.dom().len() == list.len(),
{
    broadcast use vstd::seq_lib::seq_to_set_is_finite;

    let names = list.map_values(|s: ServiceView| s.name);
    assert forall|i: int, j: int|
        #![trigger names[i], names[j]]
        0 <= i < list.len() && 0 <= j < list.len() && i != j implies names[i] != names[j] by {
        assert(names[i] == list[i].name && names[j] == list[j].name);
    }
    assert(names.no_duplicates());
    names.unique_seq_to_set();
    assert(m.dom() =~= names.to_set()) by {
        assert forall|k: ServiceNameView| #[trigger] m.dom().contains(k) implies names.to_set()
            .contains(k) by {
            let i = choose|i: int| 0 <= i < list.len() && #[trigger] list[i].name == k;
            assert(names[i] == k);
        }
        assert forall|k: ServiceNameView| #[trigger] names.to_set().contains(k) implies m.dom()
            .contains(k) by {
            let i = choose|i: int| 0 <= i < names.len() && names[i] == k;
            assert(list[i].name == k);
        }
    }
}

proof fn lemma_seq_to_map_contains(s: Seq<ServiceView>, k: ServiceNameView)
    ensures
        seq_to_map(s).contains_key(k) <==> exists|i: int| 0 <= i < s.len() && #[trigger] s[i].name
            == k,
    decreases s.len(),
{
    if s.len() > 0 {
        lemma_seq_to_map_contains(s.drop_last(), k);
        if seq_to_map(s).contains_key(k) {
            if s.last().name != k {
                let i = choose|i: int| 0 <= i < s.drop_last().len() && #[trigger] s.drop_last()[i].name == k;
                assert(s[i].name == k);
            } else {
                assert(s[s.len() - 1].name == k);
            }
        }
        if exists|i: int| 0 <= i < s.len() && #[trigger] s[i].name == k {
            let i = choose|i: int| 0 <= i < s.len() && #[trigger] s[i].name == k;
            if i < s.len() - 1 {
                assert(s.drop_last()[i].name == k);
            }
        }
    }
}

proof fn lemma_seq_to_map_index(s: Seq<ServiceView>, i: int)
    requires
        distinct_names(s),
        0 <= i < s.len(),
    ensures
        seq_to_map(s).contains_key(s[i].name),
        seq_to_map(s)[s[i].name] == s[i],
    decreases s.len(),
{
    lemma_seq_to_map_contains(s, s[i].name);
    if i == s.len() - 1 {
        assert(seq_to_map(s)[s.last().name] == s.last());
    } else {
        assert(distinct_names(s.drop_last()));
        assert(s.drop_last()[i] == s[i]);
        lemma_seq_to_map_index(s.drop_last(), i);
        assert(s[i].name != s.last().name);
    }
}

proof fn lemma_seq_to_map_remove(s: Seq<ServiceView>, i: int)
    requires
        distinct_names(s),
        0 <= i < s.len(),
    ensures
        seq_to_map(s.remove(i)) == seq_to_map(s).remove(s[i].name),
    decreases s.len(),
{
    let k = s[i].name;
    if i == s.len() - 1 {
        assert(s.remove(i) =~= s.drop_last());
        lemma_seq_to_map_contains(s.drop_last(), k);
        assert(!seq_to_map(s.drop_last()).contains_key(k)) by {
            if seq_to_map(s.drop_last()).contains_key(k) {
                let j = choose|j: int|
                    0 <= j < s.drop_last().len() && #[trigger] s.drop_last()[j].name == k;
                assert(s[j].name == k);
            }
        }
        assert(seq_to_map(s.remove(i)) =~= seq_to_map(s).remove(k));
    } else {
        assert(distinct_names(s.drop_last()));
        assert(s.drop_last()[i] == s[i]);
        lemma_seq_to_map_remove(s.drop_last(), i);
        assert(s.remove(i).drop_last() =~= s.drop_last().remove(i));
        assert(s.remove(i).last() == s.last());
        assert(s.last().name != k);
        assert(seq_to_map(s.remove(i)) == seq_to_map(s.drop_last().remove(i)).insert(
            s.last().name,
            s.last(),
        ));
        assert(seq_to_map(s.remove(i)) =~= seq_to_map(s).remove(k));
    }
}

/// The registry store: a concurrency-safe mapping from identity to
/// descriptor, with at most one descriptor per identity.
pub struct IndexState {
    entries: Vec<Service>,
}

impl IndexState {
    /// The views of the stored entries, in storage order.
    pub closed spec fn entry_views(&self) -> Seq<ServiceView> {
        self.entries@.map_values(|s: Service| s@)
    }

    /// The uniqueness invariant: at most one descriptor per identity.
    pub closed spec fn wf(&self) -> bool {
        distinct_names(self.entry_views())
    }

    /// The store's contents as a mathematical map.
    pub closed spec fn view(&self) -> Map<ServiceNameView, ServiceView> {
        seq_to_map(self.entry_views())
    }

    /// A store with no entries.
    pub fn new() -> (r: IndexState)
        ensures
            r.wf(),
            r@ == Map::<ServiceNameView, ServiceView>::empty(),
    {
        let r = IndexState { entries: Vec::new() };
        proof {
            assert(r.entry_views() =~= Seq::<ServiceView>::empty());
        }
        r
    }

    /// The index of the entry stored under `key`, if one is.
    fn find_index(&self, key: &ServiceName) -> (r: Option<usize>)
        ensures
            match r {
                Some(i) => i < self.entry_views().len() && self.entry_views()[i as int].name
                    == key@,
                None => forall|j: int|
                    0 <= j < self.entry_views().len() ==> #[trigger] self.entry_views()[j].name
                        != key@,
            },
    {
        let mut i: usize = 0;
        while i < self.entries.len()
            invariant
                i <= self.entries.len(),
                forall|j: int| 0 <= j < i ==> #[trigger] self.entry_views()[j].name != key@,
            decreases self.entries.len() - i,
        {
            if name_eq(&self.entries[i].name, key) {
                return Some(i);
            }
            i += 1;
        }
        None
    }

    /// Stores `service` under its identity, replacing the descriptor
    /// stored under that identity before, if any. The one mutation
    /// pathway; it keeps the uniqueness invariant.
    pub fn insert(&mut self, service: Service)
        requires
            old(self).wf(),
        ensures
            final(self).wf(),
            final(self)@ == old(self)@.insert(service@.name, service@),
    {
        let ghost s0 = self.entry_views();
        match self.find_index(&service.name) {
            Some(i) => {
                proof {
                    lemma_seq_to_map_remove(s0, i as int);
                }
                self.entries.remove(i);
                proof {
                    assert(self.entry_views() =~= s0.remove(i as int));
                    assert forall|a: int, b: int|
                        #![trigger self.entry_views()[a].name, self.entry_views()[b].name]
                        0 <= a < b < self.entry_views().len() implies self.entry_views()[a].name
                        != self.entry_views()[b].name by {}
                    assert forall|j: int|
                        0 <= j < self.entry_views().len() implies #[trigger] self.entry_views()[j].name
                        != service@.name by {
                        if j < i {
                            assert(self.entry_views()[j] == s0[j]);
                        } else {
                            assert(self.entry_views()[j] == s0[j + 1]);
                        }
                    }
                }
                self.push_absent(service);
                proof {
                    assert(self@ =~= old(self)@.insert(service@.name, service@));
                }
            },
            None => {
                self.push_absent(service);
            },
        }
    }

    /// Appends an entry whose identity is not yet stored.
    fn push_absent(&mut self, service: Service)
        requires
            old(self).wf(),
            forall|j: int|
                0 <= j < old(self).entry_views().len()
                    ==> #[trigger] old(self).entry_views()[j].name != service@.name,
        ensures
            final(self).wf(),
            final(self)@ == old(self)@.insert(service@.name, service@),
            final(self).entry_views() == old(self).entry_views().push(service@),
    {
        let ghost s0 = self.entry_views();
        self.entries.push(service);
        proof {
            assert(self.entry_views() =~= s0.push(service@));
            let s1 = self.entry_views();
            assert forall|a: int, b: int|
                #![trigger s1[a].name, s1[b].name]
                0 <= a < b < s1.len() implies s1[a].name != s1[b].name by {
                if b < s1.len() - 1 {
                    assert(s1[a] == s0[a] && s1[b] == s0[b]);
                } else {
                    assert(s1[a] == s0[a] && s1[b] == service@);
                }
            }
            assert(s1.drop_last() =~= s0);
            assert(s1.last() == service@);
            assert(self@ == seq_to_map(s0).insert(service@.name, service@));
        }
    }

    /// Exact-key lookup: a copy of the descriptor stored under `key`,
    /// or nothing when that exact identity is absent. No fallback to a
    /// nearby version exists.
    pub fn lookup(&self, key: &ServiceName) -> (r: Option<Service>)
        requires
            self.wf(),
        ensures
            match r {
                Some(service) => self@.contains_key(key@) && service@ == self@[key@],
                None => !self@.contains_key(key@),
            },
    {
        match self.find_index(key) {
            Some(i) => {
                proof {
                    lemma_seq_to_map_index(self.entry_views(), i as int);
                }
                Some(self.entries[i].clone())
            },
            None => {
                proof {
                    lemma_seq_to_map_contains(self.entry_views(), key@);
                }
                None
            },
        }
    }

    /// A point-in-time copy of every stored descriptor: a complete
    /// listing of the store's contents, one copy per identity, in no
    /// promised order.
    pub fn snapshot(&self) -> (r: Vec<Service>)
        requires
            self.wf(),
        ensures
            spec_listing(r@.map_values(|s: Service| s@), self@),
            self@.dom().finite(),
            r@.len() == self@.dom().len(),
    {
        let mut r: Vec<Service> = Vec::new();
        let mut i: usize = 0;
        while i < self.entries.len()
            invariant
                i <= self.entries.len(),
                r@.len() == i,
                forall|j: int| 0 <= j < i ==> r@[j]@ == #[trigger] self.entry_views()[j],
            decreases self.entries.len() - i,
        {
            r.push(self.entries[i].clone());
            i += 1;
        }
        proof {
            let list = r@.map_values(|s: Service| s@);
            assert(list =~= self.entry_views());
            assert forall|j: int| 0 <= j < list.len() implies self@.contains_key(
                #[trigger] list[j].name,
            ) && self@[list[j].name] == list[j] by {
                lemma_seq_to_map_index(self.entry_views(), j);
            }
            assert forall|k: ServiceNameView| #[trigger] self@.contains_key(k) implies exists|j: int|
                0 <= j < list.len() && #[trigger] list[j].name == k by {
                lemma_seq_to_map_contains(self.entry_views(), k);
            }
            lemma_listing_length(list, self@);
        }
        r
    }
}

/// The bootstrap identity: the seeded `database` service at version
/// `0.1.0`.
pub open spec fn bootstrap_name() -> ServiceNameView {
    ServiceNameView { name: "database"@, version: Version { major: 0, minor: 1, patch: 0 } }
}

/// The bootstrap descriptor: `database` reachable at `127.0.0.1:1234`,
/// exposing the one method `get_user(id: u64) -> u64`.
pub open spec fn bootstrap_service() -> ServiceView {
    ServiceView {
        name: bootstrap_name(),
        address: crate::model::EndpointView { host: "127.0.0.1"@, port: 1234 },
        methods: seq![
            crate::model::MethodView {
                name: "get_user"@,
                args: seq![crate::model::ArgView { name: "id"@, ty: "u64"@ }],
                returning: "u64"@,
            },
        ],
    }
}

impl Default for IndexState {
    /// The demonstration store: freshly created and seeded, by ordinary
    /// insertion, with the single bootstrap descriptor.
    fn default() -> (r: IndexState)
        ensures
            r.wf(),
            r@ == Map::<ServiceNameView, ServiceView>::empty().insert(
                bootstrap_name(),
                bootstrap_service(),
            ),
    {
        let mut r = IndexState::new();
        let name = ServiceName {
            name: String::from_str("database"),
            version: Version { major: 0, minor: 1, patch: 0 },
        };
        let mut args: Vec<ServiceMethodArgument> = Vec::new();
        args.push(
            ServiceMethodArgument {
                name: String::from_str("id"),
                ty: Type(String::from_str("u64")),
            },
        );
        let mut methods: Vec<ServiceMethod> = Vec::new();
        methods.push(
            ServiceMethod {
                name: String::from_str("get_user"),
                args,
                returning: Type(String::from_str("u64")),
            },
        );
        let service = Service {
            name,
            address: Endpoint { host: String::from_str("127.0.0.1"), port: 1234 },
            methods,
        };
        proof {
            assert(service@.name =~= bootstrap_name());
            assert(service@ =~~= bootstrap_service());
        }
        r.insert(service);
        r
    }
}

} // verus!
