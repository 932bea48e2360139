use service_index::api::{get_service, list_services, RegistryError};
use service_index::model::{Endpoint, Service, ServiceMethod, ServiceMethodArgument, ServiceName, Type};
use service_index::registry::IndexState;
use service_index::version::{version_to_string, Version};

fn sample_service(name: &str, major: u64, minor: u64, patch: u64, host: &str, port: u16) -> Service {
    Service {
        name: ServiceName {
            name: String::from(name),
            version: Version { major, minor, patch },
        },
        address: Endpoint { host: String::from(host), port },
        methods: vec![ServiceMethod {
            name: String::from("ping"),
            args: vec![ServiceMethodArgument {
                name: String::from("payload"),
                ty: Type(String::from("u64")),
            }],
            returning: Type(String::from("bool")),
        }],
    }
}

#[test]
fn bootstrap_store_answers_get() {
    let store = IndexState::default();
    let got = get_service(
        Some(&store),
        String::from("database"),
        String::from("0.1.0"),
    )
    .expect("bootstrap entry must be found");
    assert_eq!(got.name.name, "database");
    assert_eq!(got.name.version, Version { major: 0, minor: 1, patch: 0 });
    assert_eq!(got.address.host, "127.0.0.1");
    assert_eq!(got.address.port, 1234);
    assert_eq!(got.methods.len(), 1);
    assert_eq!(got.methods[0].name, "get_user");
    assert_eq!(got.methods[0].args.len(), 1);
    assert_eq!(got.methods[0].args[0].name, "id");
    assert_eq!(got.methods[0].args[0].ty, Type(String::from("u64")));
    assert_eq!(got.methods[0].returning, Type(String::from("u64")));
}

#[test]
fn bootstrap_store_lists_sole_entry() {
    let store = IndexState::default();
    let listed = list_services(Some(&store)).expect("listing must succeed");
    assert_eq!(listed.len(), 1);
    let expected = get_service(
        Some(&store),
        String::from("database"),
        String::from("0.1.0"),
    )
    .unwrap();
    assert_eq!(listed[0], expected);
}

#[test]
fn round_trip_inserted_descriptor() {
    let mut store = IndexState::new();
    let d = sample_service("billing", 2, 10, 7, "10.0.0.5", 8080);
    store.insert(d.clone());
    let version = version_to_string(&d.name.version);
    assert_eq!(version, "2.10.7");
    let got = get_service(Some(&store), d.name.name.clone(), version).unwrap();
    assert_eq!(got, d);
}

#[test]
fn exact_match_only() {
    let mut store = IndexState::new();
    store.insert(sample_service("svc", 1, 2, 3, "10.0.0.1", 80));
    let err = get_service(Some(&store), String::from("svc"), String::from("1.2.4"))
        .unwrap_err();
    assert_eq!(err, RegistryError::ServiceNotFound);
    let err = get_service(Some(&store), String::from("svc"), String::from("1.2.0"))
        .unwrap_err();
    assert_eq!(err, RegistryError::ServiceNotFound);
    let ok = get_service(Some(&store), String::from("svc"), String::from("1.2.3"));
    assert!(ok.is_ok());
}

#[test]
fn malformed_version_takes_precedence() {
    let mut store = IndexState::new();
    store.insert(sample_service("svc", 1, 2, 3, "10.0.0.1", 80));
    let err = get_service(Some(&store), String::from("svc"), String::from("abc"))
        .unwrap_err();
    assert_eq!(err, RegistryError::MalformedVersion);
    // Malformed input outranks an unreachable store: the version is
    // rejected before the store would ever be consulted.
    let err = get_service(None, String::from("svc"), String::from("abc")).unwrap_err();
    assert_eq!(err, RegistryError::MalformedVersion);
}

#[test]
fn empty_name_is_rejected_before_the_store() {
    let mut store = IndexState::new();
    store.insert(sample_service("svc", 1, 2, 3, "10.0.0.1", 80));
    let err = get_service(Some(&store), String::new(), String::from("1.2.3")).unwrap_err();
    assert_eq!(err, RegistryError::MalformedName);
    // The rejection happens before the store is consulted, so an
    // unreachable store makes no difference.
    let err = get_service(None, String::new(), String::from("1.2.3")).unwrap_err();
    assert_eq!(err, RegistryError::MalformedName);
    // An empty store is never reached either: the answer is the
    // rejection, not ServiceNotFound.
    let empty = IndexState::new();
    let err = get_service(Some(&empty), String::new(), String::from("1.2.3")).unwrap_err();
    assert_eq!(err, RegistryError::MalformedName);
    // The version string is validated first: with both inputs bad, the
    // version's rejection wins.
    let err = get_service(Some(&store), String::new(), String::from("abc")).unwrap_err();
    assert_eq!(err, RegistryError::MalformedVersion);
}

#[test]
fn unavailable_store_is_reported() {
    let err = list_services(None).unwrap_err();
    assert_eq!(err, RegistryError::Unavailable);
    let err = get_service(None, String::from("svc"), String::from("1.2.3")).unwrap_err();
    assert_eq!(err, RegistryError::Unavailable);
}

#[test]
fn listing_is_complete_and_duplicate_free() {
    let mut store = IndexState::new();
    let a = sample_service("alpha", 1, 0, 0, "10.0.0.1", 81);
    let b = sample_service("beta", 2, 0, 0, "10.0.0.2", 82);
    // Same name as `a`, different version: a distinct identity.
    let c = sample_service("alpha", 1, 0, 1, "10.0.0.3", 83);
    store.insert(a.clone());
    store.insert(b.clone());
    store.insert(c.clone());
    let listed = list_services(Some(&store)).expect("listing must succeed");
    assert_eq!(listed.len(), 3);
    for inserted in [&a, &b, &c] {
        assert_eq!(
            listed.iter().filter(|s| *s == inserted).count(),
            1,
            "each inserted descriptor is listed exactly once"
        );
    }
}

#[test]
fn insert_replaces_same_identity() {
    let mut store = IndexState::new();
    store.insert(sample_service("svc", 1, 2, 3, "10.0.0.1", 80));
    let newer = sample_service("svc", 1, 2, 3, "10.9.9.9", 9999);
    store.insert(newer.clone());
    let listed = list_services(Some(&store)).unwrap();
    assert_eq!(listed.len(), 1);
    assert_eq!(listed[0], newer);
    let got = get_service(Some(&store), String::from("svc"), String::from("1.2.3")).unwrap();
    assert_eq!(got, newer);
}

#[test]
fn repeated_lookups_answer_alike() {
    let mut store = IndexState::new();
    store.insert(sample_service("svc", 1, 2, 3, "10.0.0.1", 80));
    let first = get_service(Some(&store), String::from("svc"), String::from("1.2.3"));
    for _ in 0..10 {
        let again = get_service(Some(&store), String::from("svc"), String::from("1.2.3"));
        assert_eq!(again, first);
    }
    let missing_first =
        get_service(Some(&store), String::from("other"), String::from("1.2.3"));
    let missing_again =
        get_service(Some(&store), String::from("other"), String::from("1.2.3"));
    assert_eq!(missing_again, missing_first);
}

#[test]
fn interleaved_reads_stay_consistent() {
    let mut store = IndexState::new();
    let a = sample_service("alpha", 1, 0, 0, "10.0.0.1", 81);
    let b = sample_service("beta", 2, 0, 0, "10.0.0.2", 82);
    store.insert(a.clone());
    store.insert(b.clone());
    for _ in 0..20 {
        let listed = list_services(Some(&store)).unwrap();
        assert_eq!(listed.len(), 2);
        let got_a =
            get_service(Some(&store), String::from("alpha"), String::from("1.0.0")).unwrap();
        assert_eq!(got_a, a);
        let got_b =
            get_service(Some(&store), String::from("beta"), String::from("2.0.0")).unwrap();
        assert_eq!(got_b, b);
    }
}

#[test]
fn lookup_on_empty_store_is_not_found() {
    let store = IndexState::new();
    let err = get_service(Some(&store), String::from("svc"), String::from("0.0.1"))
        .unwrap_err();
    assert_eq!(err, RegistryError::ServiceNotFound);
    let listed = list_services(Some(&store)).unwrap();
    assert!(listed.is_empty());
}

#[test]
fn returned_descriptor_is_a_copy() {
    let mut store = IndexState::new();
    let d = sample_service("svc", 1, 2, 3, "10.0.0.1", 80);
    store.insert(d.clone());
    let mut got =
        get_service(Some(&store), String::from("svc"), String::from("1.2.3")).unwrap();
    got.address.host = String::from("tampered");
    got.methods.clear();
    let again =
        get_service(Some(&store), String::from("svc"), String::from("1.2.3")).unwrap();
    assert_eq!(again, d, "mutating a returned copy never reaches the store");
}
