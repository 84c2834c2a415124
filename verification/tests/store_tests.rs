use ssi_man::Error;
use ssi_man::RevealOutcome;
use ssi_man::SsiMan;
use ssi_man::SsiMemoryStore;

#[test]
fn round_trip_insert_get() {
    let mut store = SsiMemoryStore::new();
    store
        .insert(
            "luna".to_string(),
            "descriptor-luna".to_string(),
            "secret-luna".to_string(),
        )
        .unwrap();
    let (ssi, secret) = store.get("luna").unwrap();
    assert_eq!(ssi, "descriptor-luna");
    assert_eq!(secret, "secret-luna");
}

#[test]
fn insert_overwrites_existing_record() {
    let mut store = SsiMemoryStore::new();
    store
        .insert("luna".to_string(), "d1".to_string(), "s1".to_string())
        .unwrap();
    store
        .insert("luna".to_string(), "d2".to_string(), "s2".to_string())
        .unwrap();
    let (ssi, secret) = store.get("luna").unwrap();
    assert_eq!(ssi, "d2");
    assert_eq!(secret, "s2");
    let all = store.all_identities().unwrap();
    assert_eq!(all, vec!["luna".to_string()]);
}

#[test]
fn get_unknown_identity_is_a_typed_error() {
    let store = SsiMemoryStore::new();
    let err = store.get("nobody").unwrap_err();
    assert!(matches!(err, Error::UnknownIdentity(s) if s == "nobody"));
}

#[test]
fn remove_is_idempotent() {
    let mut store = SsiMemoryStore::new();
    assert_eq!(store.remove("luna").unwrap(), false);
    store
        .insert("luna".to_string(), "d".to_string(), "s".to_string())
        .unwrap();
    assert_eq!(store.remove("luna").unwrap(), true);
    assert_eq!(store.remove("luna").unwrap(), false);
}

#[test]
fn pagination_counts_and_tiles_pages() {
    let mut store = SsiMemoryStore::new();
    for name in ["a", "b", "c", "d", "e"] {
        store
            .insert(name.to_string(), format!("d-{name}"), format!("s-{name}"))
            .unwrap();
    }
    let (page1, total) = store.paginated_identities(1, 2).unwrap();
    assert_eq!(total, 3); // ceil(5 / 2)
    assert_eq!(page1, vec!["a".to_string(), "b".to_string()]);
    let (page2, _) = store.paginated_identities(2, 2).unwrap();
    assert_eq!(page2, vec!["c".to_string(), "d".to_string()]);
    let (page3, _) = store.paginated_identities(3, 2).unwrap();
    assert_eq!(page3, vec!["e".to_string()]);
    let (page4, _) = store.paginated_identities(4, 2).unwrap();
    assert!(page4.is_empty());

    let mut union: Vec<String> = Vec::new();
    union.extend(page1);
    union.extend(page2);
    union.extend(page3);
    assert_eq!(union, store.all_identities().unwrap());
}

#[test]
fn pagination_rejects_page_size_zero() {
    let store = SsiMemoryStore::new();
    let err = store.paginated_identities(1, 0).unwrap_err();
    assert!(matches!(err, Error::InvalidPageSize));
}

#[test]
fn page_count_matches_exact_values() {
    assert_eq!(ssi_man::page_count(0, 10).unwrap(), 0);
    assert_eq!(ssi_man::page_count(1, 10).unwrap(), 1);
    assert_eq!(ssi_man::page_count(10, 10).unwrap(), 1);
    assert_eq!(ssi_man::page_count(11, 10).unwrap(), 2);
    assert!(matches!(
        ssi_man::page_count(7, 0).unwrap_err(),
        Error::InvalidPageSize
    ));
}

#[test]
fn page_bounds_clip_to_the_listing() {
    assert_eq!(ssi_man::page_bounds(5, 1, 2), (0, 2));
    assert_eq!(ssi_man::page_bounds(5, 3, 2), (4, 5));
    assert_eq!(ssi_man::page_bounds(5, 4, 2), (5, 5));
    assert_eq!(ssi_man::page_bounds(3, usize::MAX, usize::MAX), (3, 3));
}

#[test]
fn manager_scenario_create_list_remove() {
    let mut man = SsiMan::with_memory();
    let rendered = man
        .new_ssi("luna", "descriptor-luna", "secret-luna")
        .unwrap();
    assert_eq!(rendered, "descriptor-luna");

    let (page, total) = man.paginated_identities(1, 10).unwrap();
    assert_eq!((page, total), (vec!["luna".to_string()], 1));
    let (empty_page, total) = man.paginated_identities(2, 10).unwrap();
    assert_eq!((empty_page, total), (vec![], 1));
    assert_eq!(man.all_identities().unwrap(), vec!["luna".to_string()]);

    let (ssi, secret) = man.signing_material("luna").unwrap();
    assert_eq!((ssi.as_str(), secret.as_str()), ("descriptor-luna", "secret-luna"));

    assert!(man.remove("luna").unwrap());
    assert_eq!(man.all_identities().unwrap(), Vec::<String>::new());
}

#[test]
fn uid_string_formats_the_identifier_line() {
    let uid = ssi_man::uid_string("luna", "luna@bitlightlabs.com");
    assert_eq!(uid, "luna <mailto:luna@bitlightlabs.com>");
}

#[test]
fn default_password_is_the_empty_string() {
    assert_eq!(ssi_man::DEFAULT_EMPTY_PASSWORD, "");
}

#[test]
fn signing_accepts_only_the_matching_revealed_key() {
    let ok = ssi_man::signing_decision(
        RevealOutcome::Revealed {
            public_key: "pk-luna".to_string(),
        },
        "pk-luna",
    );
    assert!(ok.is_ok());
}

#[test]
fn wrong_password_is_detected_not_ignored() {
    // A wrong password either fails the reveal outright...
    let failed = ssi_man::signing_decision(
        RevealOutcome::Failed {
            reason: "invalid key".to_string(),
        },
        "pk-luna",
    );
    assert!(matches!(failed, Err(Error::SecretReveal(s)) if s == "invalid key"));

    // ...or decrypts to a key that does not match the stored descriptor.
    let mismatch = ssi_man::signing_decision(
        RevealOutcome::Revealed {
            public_key: "pk-other".to_string(),
        },
        "pk-luna",
    );
    assert!(matches!(mismatch, Err(Error::SignerWrongKey)));
}

#[test]
fn default_manager_is_the_memory_backend() {
    let man = SsiMan::default();
    assert_eq!(man.all_identities().unwrap(), Vec::<String>::new());
}

#[test]
fn consistency_scenario_on_the_memory_backend() {
    let mut store = SsiMemoryStore::new();
    let (listed, removed, after) =
        ssi_man::consistency_scenario(&mut store, "luna", "descriptor-luna", "secret-luna")
            .unwrap();
    assert_eq!(listed, vec!["luna".to_string()]);
    assert!(removed);
    assert!(after.is_empty());
}

#[test]
fn error_equality_compares_kind_and_text() {
    assert_eq!(
        Error::UnknownIdentity("luna".into()),
        Error::UnknownIdentity("luna".into())
    );
    assert_ne!(
        Error::UnknownIdentity("luna".into()),
        Error::UnknownIdentity("mira".into())
    );
    assert_ne!(Error::SignerWrongKey, Error::InvalidPageSize);
    assert_eq!(Error::SignerWrongKey, Error::SignerWrongKey);
}

#[test]
fn paginated_results_compare_by_equality() {
    let mut man = SsiMan::with_memory();
    man.new_ssi("luna", "d", "s").unwrap();
    assert_eq!(
        man.paginated_identities(1, 10),
        Ok((vec!["luna".to_string()], 1))
    );
    assert_eq!(man.paginated_identities(2, 10), Ok((vec![], 1)));
}
