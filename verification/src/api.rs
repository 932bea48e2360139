//! The registry API: the two operations, `list` and `get`, over a store
//! handed in by the caller, with the registry's error taxonomy.
//!
//! The transport that shares one store across request handlers guards it
//! with a single exclusive guard and hands each operation the guarded
//! store; a guard whose prior holder failed while holding it (poisoning)
//! is handed in as `None` and reported as `Unavailable` — fatal for the
//! request, never for the process. Both operations are single-shot: no
//! retry happens anywhere.

use crate::model::Service;
use crate::model::ServiceName;
use crate::model::ServiceNameView;
use crate::model::ServiceView;
use crate::registry::IndexState;
use crate::registry::spec_listing;
use crate::version::Version;
use crate::version::lemma_version_round_trip;
use crate::version::parse_version;
use crate::version::spec_parse_version;
use crate::version::spec_version_str;
use vstd::prelude::*;

verus! {

/// Every way a registry request can fail. Each failure is an ordinary
/// result value, classified into exactly one kind; none terminates the
/// process.
#[derive(Clone, Copy, Debug, PartialEq, Eq, Structural, Hash)]
pub enum RegistryError {
    /// The caller's version string does not write three dot-separated
    /// numbers: a rejected-input error, raised before the store is
    /// consulted and never retried.
    MalformedVersion,
    /// The caller's service name is empty, so no identity can be
    /// constructed from it: rejected at the identity-construction
    /// boundary, before the store is ever reached.
    MalformedName,
    /// The parsed identity has no entry. A well-formed but absent
    /// version is a normal outcome, not a defect.
    ServiceNotFound,
    /// The store's guard could not be acquired. Transient and
    /// server-side: the process keeps serving later requests.
    Unavailable,
}

/// The contents an operation sees: the store's map when its guard was
/// acquired, nothing when the guard was poisoned.
pub open spec fn spec_store_view(store: Option<&IndexState>) -> Option<
    Map<ServiceNameView, ServiceView>,
> {
    match store {
        Some(st) => Some(st@),
        None => None,
    }
}

/// The one answer `get_service` owes for each input: a malformed
/// version string is rejected first, whatever the store holds; then an
/// empty name, at the identity-construction boundary, still before the
/// store; then an unreachable store; then exact-key lookup.
pub open spec fn spec_get(
    store: Option<Map<ServiceNameView, ServiceView>>,
    name: Seq<char>,
    version: Seq<char>,
) -> Result<ServiceView, RegistryError> {
    match spec_parse_version(version) {
        None => Err(RegistryError::MalformedVersion),
        Some(v) => if name.len() == 0 {
            Err(RegistryError::MalformedName)
        } else {
            match store {
                None => Err(RegistryError::Unavailable),
                Some(m) => {
                    let key = ServiceNameView { name: name, version: v };
                    if m.contains_key(key) {
                        Ok(m[key])
                    } else {
                        Err(RegistryError::ServiceNotFound)
                    }
                },
            }
        },
    }
}

/// A returned descriptor, seen at the level of the model.
pub open spec fn result_view(r: Result<Service, RegistryError>) -> Result<
    ServiceView,
    RegistryError,
> {
    match r {
        Ok(s) => Ok(s@),
        Err(e) => Err(e),
    }
}

/// Looks up the service registered under `name` at exactly the version
/// written by `version`. Both inputs are validated — the version string
/// must write a version, the name must not be empty — before the store
/// is touched; lookup is exact-key with no fallback; the answer is a
/// copy, never a reference into the store.
pub fn get_service(store: Option<&IndexState>, name: String, version: String) -> (r: Result<
    Service,
    RegistryError,
>)
    requires
        store matches Some(st) ==> st.wf(),
    ensures
        result_view(r) == spec_get(spec_store_view(store), name@, version@),
{
    let v: Version = match parse_version(version.as_str()) {
        Some(v) => v,
        None => {
            return Err(RegistryError::MalformedVersion);
        },
    };
    if name.as_str().is_empty() {
        return Err(RegistryError::MalformedName);
    }
    let st = match store {
        Some(st) => st,
        None => {
            return Err(RegistryError::Unavailable);
        },
    };
    let key = ServiceName { name, version: v };
    match st.lookup(&key) {
        Some(service) => Ok(service),
        None => Err(RegistryError::ServiceNotFound),
    }
}

/// Lists every registered descriptor: a point-in-time, internally
/// consistent copy of the whole store, complete and without duplicates.
/// Fails only when the store's guard was poisoned.
pub fn list_services(store: Option<&IndexState>) -> (r: Result<Vec<Service>, RegistryError>)
    requires
        store matches Some(st) ==> st.wf(),
    ensures
        match store {
            None => r == Err::<Vec<Service>, RegistryError>(RegistryError::Unavailable),
            Some(st) => r matches Ok(list) && spec_listing(
                list@.map_values(|s: Service| s@),
                st@,
            ) && list@.len() == st@.dom().len(),
        },
{
    match store {
        Some(st) => Ok(st.snapshot()),
        None => Err(RegistryError::Unavailable),
    }
}

/// Round-trip law: any stored descriptor whose identity carries a
/// nonempty name is answered back, structurally equal, by a `get` for
/// its own name and its version written in `major.minor.patch` form.
/// (An identity with an empty name is rejected at the API's
/// identity-construction boundary and can never be fetched by `get`.)
pub proof fn lemma_get_round_trip(m: Map<ServiceNameView, ServiceView>, d: ServiceView)
    requires
        m.contains_key(d.name),
        m[d.name] == d,
        d.name.name.len() > 0,
    ensures
        spec_get(
            Some(m),
            d.name.name,
            spec_version_str(
                d.name.version.major as nat,
                d.name.version.minor as nat,
                d.name.version.patch as nat,
            ),
        ) == Ok::<ServiceView, RegistryError>(d),
{
    lemma_version_round_trip(d.name.version);
    assert(ServiceNameView { name: d.name.name, version: d.name.version } =~= d.name);
}

/// Malformed-input precedence law: a version string that writes no
/// version is rejected as `MalformedVersion` whatever the store holds —
/// even an unreachable store — and for any name.
pub proof fn lemma_malformed_precedence(
    store: Option<Map<ServiceNameView, ServiceView>>,
    name: Seq<char>,
    version: Seq<char>,
)
    requires
        spec_parse_version(version) is None,
    ensures
        spec_get(store, name, version) == Err::<ServiceView, RegistryError>(
            RegistryError::MalformedVersion,
        ),
{
}

/// Empty-name rejection law: a name from which no identity can be
/// constructed is rejected as `MalformedName` before the store is ever
/// reached — whatever the store holds, even an unreachable one —
/// whenever the version string itself is well formed.
pub proof fn lemma_empty_name_rejected(
    store: Option<Map<ServiceNameView, ServiceView>>,
    name: Seq<char>,
    version: Seq<char>,
)
    requires
        spec_parse_version(version) is Some,
        name.len() == 0,
    ensures
        spec_get(store, name, version) == Err::<ServiceView, RegistryError>(
            RegistryError::MalformedName,
        ),
{
}

/// Idempotent lookup law: the answer `get` owes is a function of the
/// store's contents and the two input strings alone, so repeated calls
/// with the same valid input against an unmutated store answer equal
/// results.
pub proof fn lemma_get_idempotent(
    r1: Result<ServiceView, RegistryError>,
    r2: Result<ServiceView, RegistryError>,
    store: Option<Map<ServiceNameView, ServiceView>>,
    name: Seq<char>,
    version: Seq<char>,
)
    requires
        r1 == spec_get(store, name, version),
        r2 == spec_get(store, name, version),
    ensures
        r1 == r2,
{
}

} // verus!
